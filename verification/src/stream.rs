//! The byte stream of one recording, read in blocks of any size.

use crate::datatype::DataType;
use crate::packet::split_batches;
use crate::sample::IqSample;
use vstd::prelude::*;

verus! {

/// Size of the read buffer.
pub const IO_BUFFER_BYTES: usize = 1024 * 1024;

/// Reads a recording block by block, and hands out full batches of samples.
///
/// Bytes of a sample that a read cut in two stay at the front of the buffer for
/// the next read. Samples of a batch that is not full yet wait as leftovers.
#[derive(Debug)]
pub struct IqStream {
    datatype: DataType,
    buffer: Vec<u8>,
    pending: usize,
    leftovers: Vec<IqSample>,
}

/// What an [`IqStream`] carries from one read to the next.
pub struct StreamView {
    pub datatype: DataType,
    /// The bytes of a sample that has not arrived as a whole.
    pub carry: Seq<u8>,
    /// The samples of a batch that is not full yet.
    pub leftovers: Seq<IqSample>,
}

impl StreamView {
    /// A stream that has read nothing yet.
    pub open spec fn fresh(datatype: DataType) -> StreamView {
        StreamView { datatype, carry: seq![], leftovers: seq![] }
    }

    /// All samples at hand once `bytes` have been read.
    pub open spec fn joined(self, bytes: Seq<u8>) -> Seq<IqSample> {
        let available = self.carry + bytes;
        self.leftovers + self.datatype.decoded(available.take(self.datatype.whole(available.len())))
    }

    /// The stream after `bytes` have been read.
    pub open spec fn absorbed(self, bytes: Seq<u8>) -> StreamView {
        let available = self.carry + bytes;
        StreamView {
            datatype: self.datatype,
            carry: available.skip(self.datatype.whole(available.len())),
            leftovers: crate::packet::remainder(self.joined(bytes)),
        }
    }

    /// The full batches that reading `bytes` completes.
    pub open spec fn completed(self, bytes: Seq<u8>) -> Seq<Seq<IqSample>> {
        crate::packet::full_batches(self.joined(bytes))
    }

    /// The carried bytes are less than a sample, the leftovers less than a batch.
    pub open spec fn settled(self) -> bool {
        &&& self.carry.len() < self.datatype.sample_size()
        &&& self.leftovers.len() < crate::packet::PACKET_SAMPLES
    }
}

impl View for IqStream {
    type V = StreamView;

    closed spec fn view(&self) -> StreamView {
        StreamView {
            datatype: self.datatype,
            carry: self.buffer@.take(self.pending as int),
            leftovers: self.leftovers@,
        }
    }
}

impl IqStream {
    /// The buffer has its full size, and what is carried leaves room to read.
    pub closed spec fn wf(self) -> bool {
        &&& self.buffer@.len() == IO_BUFFER_BYTES
        &&& self.pending <= self.buffer@.len()
        &&& self@.settled()
    }

    /// The part of the buffer that the next read fills.
    pub closed spec fn free(self) -> Seq<u8> {
        self.buffer@.skip(self.pending as int)
    }

    /// A stream of recordings of the given datatype that has read nothing yet.
    pub fn new(datatype: DataType) -> (stream: IqStream)
        ensures
            stream.wf(),
            stream@ == StreamView::fresh(datatype),
    {
        let stream = IqStream {
            datatype,
            buffer: vec![0u8; IO_BUFFER_BYTES],
            pending: 0,
            leftovers: Vec::new(),
        };
        proof {
            assert(stream@.carry =~= seq![]);
            assert(stream@.leftovers =~= seq![]);
        }
        stream
    }

    /// How many bytes of a partial sample wait for the rest of it.
    pub fn pending(&self) -> (count: usize)
        requires
            self.wf(),
        ensures
            count == self@.carry.len(),
    {
        self.pending
    }

    /// The room that the next read may fill, behind the carried bytes. It is
    /// never empty, so that a read of no bytes means the end of the file.
    pub fn window(&mut self) -> (room: &mut [u8])
        requires
            old(self).wf(),
        ensures
            room@ == old(self).free(),
            room@.len() == 1_048_576 - old(self)@.carry.len(),
            room@.len() > 0,
            final(room)@.len() == room@.len() ==> final(self).wf(),
            final(self)@ == old(self)@,
            final(self).free() == final(room)@,
    {
        let ghost before = self.buffer@;
        let pending: usize = self.pending;
        let (carried, room) = self.buffer.as_mut_slice().split_at_mut(pending);
        proof {
            assert(final(carried)@ == carried@);
            assert((final(carried)@ + final(room)@).take(pending as int) =~= before.take(
                pending as int,
            ));
            assert((final(carried)@ + final(room)@).skip(pending as int) =~= final(room)@);
        }
        room
    }

    /// Takes in the `n` bytes that were read into the window, and hands out the
    /// batches that they complete.
    pub fn absorb(&mut self, n: usize) -> (full: Vec<Vec<IqSample>>)
        requires
            old(self).wf(),
            n <= old(self).free().len(),
        ensures
            final(self).wf(),
            final(self)@ == old(self)@.absorbed(old(self).free().take(n as int)),
            crate::packet::contents(full@) == old(self)@.completed(old(self).free().take(n as int)),
    {
        let ghost start = self.buffer@;
        let size: usize = self.datatype.bytes_per_sample();
        let available: usize = self.pending + n;
        let partial: usize = available % size;
        let whole: usize = available - partial;
        proof {
            let read = old(self)@.carry + old(self).free().take(n as int);
            assert(read =~= start.take(available as int));
            assert(partial == self.datatype.partial(available as nat));
            assert(start.subrange(0, whole as int) =~= read.take(whole as int));
        }
        let mut samples = self.datatype.decode(
            vstd::slice::slice_subrange(self.buffer.as_slice(), 0, whole),
        );
        let mut i: usize = 0;
        while i < partial
            invariant
                i <= partial,
                whole + partial <= IO_BUFFER_BYTES,
                self.buffer@.len() == IO_BUFFER_BYTES,
                start.len() == IO_BUFFER_BYTES,
                self.leftovers == old(self).leftovers,
                self.datatype == old(self).datatype,
                forall|j: int| 0 <= j < i ==> self.buffer@[j] == start[whole + j],
                forall|j: int| i <= j < IO_BUFFER_BYTES ==> self.buffer@[j] == start[j],
            decreases partial - i,
        {
            let byte: u8 = self.buffer[whole + i];
            self.buffer[i] = byte;
            i = i + 1;
        }
        self.pending = partial;
        let mut joined: Vec<IqSample> = Vec::with_capacity(
            self.leftovers.len() + samples.len(),
        );
        joined.append(&mut self.leftovers);
        joined.append(&mut samples);
        proof {
            let bytes = old(self).free().take(n as int);
            assert(joined@ =~= old(self)@.joined(bytes));
        }
        let (full, rest) = split_batches(joined);
        self.leftovers = rest;
        proof {
            let bytes = old(self).free().take(n as int);
            let read = old(self)@.carry + bytes;
            assert(self@.carry =~= read.skip(whole as int));
        }
        full
    }

    /// Ends the recording. The samples of the last, partial batch come out, if
    /// there are any; the bytes of a truncated sample are dropped.
    pub fn finish(self) -> (tail: Option<Vec<IqSample>>)
        requires
            self.wf(),
        ensures
            tail is Some <==> self@.leftovers.len() > 0,
            tail matches Some(batch) ==> batch@ == self@.leftovers,
    {
        if self.leftovers.is_empty() {
            None
        } else {
            Some(self.leftovers)
        }
    }
}

impl StreamView {
    /// The stream after a list of blocks has been read, one by one.
    pub open spec fn after(self, blocks: Seq<Seq<u8>>) -> StreamView
        decreases blocks.len(),
    {
        if blocks.len() == 0 {
            self
        } else {
            self.absorbed(blocks.first()).after(blocks.drop_first())
        }
    }

    /// The full batches that come out while a list of blocks is read.
    pub open spec fn handed_out(self, blocks: Seq<Seq<u8>>) -> Seq<Seq<IqSample>>
        decreases blocks.len(),
    {
        if blocks.len() == 0 {
            seq![]
        } else {
            self.completed(blocks.first()) + self.absorbed(blocks.first()).handed_out(
                blocks.drop_first(),
            )
        }
    }
}

/// What is at hand after one read of all bytes: the samples at hand after the
/// first part, and those that the second part completes.
#[verifier::spinoff_prover]
proof fn lemma_second_read(stream: StreamView, first: Seq<u8>, second: Seq<u8>)
    ensures
        ({
            let next = stream.absorbed(first).carry + second;
            let cut = stream.datatype.whole(next.len());
            &&& stream.absorbed(first + second).carry == next.skip(cut)
            &&& stream.joined(first + second) == stream.joined(first) + stream.datatype.decoded(
                next.take(cut),
            )
        }),
{
    let datatype = stream.datatype;
    let available = stream.carry + first;
    let cut = datatype.whole(available.len());
    let next = available.skip(cut) + second;
    let total = stream.carry + (first + second);
    let next_cut = datatype.whole(next.len());
    crate::datatype::lemma_whole_resumes(datatype, available.len(), second.len());
    crate::datatype::lemma_whole_resumes(datatype, next.len(), 0);
    assert(total =~= available + second);
    assert(total.take(cut + next_cut) =~= available.take(cut) + next.take(next_cut));
    assert(total.skip(cut + next_cut) =~= next.skip(next_cut));
    crate::datatype::law_decode_concatenates(datatype, available.take(cut), next.take(next_cut));
    let decoded = datatype.decoded(next.take(next_cut));
    assert(stream.joined(first + second) =~= stream.joined(first) + decoded);
}

/// Where a read ends makes no difference: two reads leave the stream in the
/// same state, and complete the same batches, as one read of all their bytes.
#[verifier::spinoff_prover]
pub proof fn law_reads_join(stream: StreamView, first: Seq<u8>, second: Seq<u8>)
    ensures
        stream.absorbed(first).absorbed(second) == stream.absorbed(first + second),
        stream.completed(first) + stream.absorbed(first).completed(second) == stream.completed(
            first + second,
        ),
{
    let between = stream.absorbed(first);
    let next = between.carry + second;
    let decoded = stream.datatype.decoded(next.take(stream.datatype.whole(next.len())));
    let front = stream.joined(first);
    lemma_second_read(stream, first, second);
    crate::packet::law_batches_resume(front, decoded);
    let left = between.absorbed(second);
    let right = stream.absorbed(first + second);
    assert(between.joined(second) == crate::packet::remainder(front) + decoded) by {
        assert(between.leftovers == crate::packet::remainder(front));
    }
    assert(left.leftovers == right.leftovers) by {
        assert(left.leftovers == crate::packet::remainder(between.joined(second)));
        assert(right.leftovers == crate::packet::remainder(stream.joined(first + second)));
    }
    assert(left.carry == right.carry);
    assert(left.datatype == right.datatype);
    assert(between.completed(second) == crate::packet::full_batches(between.joined(second)));
}

/// What comes out, and what stays, after a list of reads is what one read of
/// all their bytes gives.
pub proof fn law_reads_fold(stream: StreamView, blocks: Seq<Seq<u8>>)
    requires
        stream.settled(),
    ensures
        stream.after(blocks) == stream.absorbed(blocks.flatten()),
        stream.handed_out(blocks) == stream.completed(blocks.flatten()),
    decreases blocks.len(),
{
    if blocks.len() == 0 {
        let none = blocks.flatten();
        assert(none =~= seq![]);
        assert(stream.carry + none =~= stream.carry);
        assert(stream.datatype.whole(stream.carry.len()) == 0);
        assert(stream.joined(none) =~= stream.leftovers);
        assert(stream.absorbed(none).carry =~= stream.carry);
        assert(stream.absorbed(none).leftovers =~= stream.leftovers);
        assert(stream.completed(none) =~= seq![]);
    } else {
        let next = stream.absorbed(blocks.first());
        let rest = blocks.drop_first();
        law_absorbed_settles(stream, blocks.first());
        law_reads_fold(next, rest);
        law_reads_join(stream, blocks.first(), rest.flatten());
        assert(blocks.flatten() =~= blocks.first() + rest.flatten());
    }
}

/// Whatever is read, less than a sample is carried on as bytes, and less than a
/// batch as samples.
pub proof fn law_absorbed_settles(stream: StreamView, bytes: Seq<u8>)
    ensures
        stream.absorbed(bytes).settled(),
{
}

/// A stream carries on what its reads have not completed, and nothing else: of
/// the bytes so far the last ones, as many as are too few for a pair of eight or
/// of four bytes, and of the samples so far the last ones, as many as are too few
/// for a batch.
pub proof fn law_carried_on(datatype: DataType, blocks: Seq<Seq<u8>>)
    ensures
        ({
            let bytes = blocks.flatten();
            let samples = datatype.decoded(bytes);
            let stream = StreamView::fresh(datatype).after(blocks);
            let behind: int = if datatype == DataType::Cf32Le {
                bytes.len() as int % 8
            } else {
                bytes.len() as int % 4
            };
            &&& stream.datatype == datatype
            &&& stream.carry == bytes.skip(bytes.len() - behind)
            &&& stream.leftovers == samples.skip(samples.len() - samples.len() as int % 262_144)
        }),
{
    let stream = StreamView::fresh(datatype);
    let bytes = blocks.flatten();
    law_reads_fold(stream, blocks);
    assert(stream.carry + bytes =~= bytes);
    crate::datatype::law_truncated_tail_ignored(datatype, bytes);
    assert(stream.joined(bytes) =~= datatype.decoded(bytes));
}

/// A read neither loses nor adds a sample: the samples that were left over and
/// those of the carried bytes with the new ones behind them are, in this order,
/// those of the batches that come out and those that are left over now. Every
/// batch that comes out is full, and what is left over is less than a batch.
pub proof fn law_read_keeps_every_sample(stream: StreamView, bytes: Seq<u8>)
    ensures
        ({
            let next = stream.absorbed(bytes);
            let out = stream.completed(bytes);
            let available = stream.carry + bytes;
            let behind: int = if stream.datatype == DataType::Cf32Le {
                available.len() as int % 8
            } else {
                available.len() as int % 4
            };
            &&& next.datatype == stream.datatype
            &&& out.flatten() + next.leftovers == stream.leftovers + stream.datatype.decoded(
                available,
            )
            &&& next.carry == available.skip(available.len() - behind)
            &&& next.leftovers.len() < 262_144
            &&& forall|k: int| 0 <= k < out.len() ==> (#[trigger] out[k]).len() == 262_144
        }),
{
    let available = stream.carry + bytes;
    crate::datatype::law_truncated_tail_ignored(stream.datatype, available);
    crate::packet::lemma_full_then_remainder(stream.joined(bytes));
    crate::packet::law_cut_every_packet(stream.joined(bytes));
}

/// A recording that is read to its end comes out as the batches of its samples,
/// however the reads cut it: nothing is lost at a cut, a last batch that is not
/// full comes out at the end, and bytes of a truncated sample are dropped.
pub proof fn law_recording_comes_out(datatype: DataType, blocks: Seq<Seq<u8>>)
    ensures
        StreamView::fresh(datatype).handed_out(blocks) + crate::packet::tail_batch(
            StreamView::fresh(datatype).after(blocks).leftovers,
        ) == crate::packet::batches(datatype.decoded(blocks.flatten())),
{
    let stream = StreamView::fresh(datatype);
    let bytes = blocks.flatten();
    law_reads_fold(stream, blocks);
    assert(stream.carry + bytes =~= bytes);
    crate::datatype::law_truncated_tail_ignored(datatype, bytes);
    assert(stream.joined(bytes) =~= datatype.decoded(bytes));
}

} // verus!
