//! Packets and the cutting of a sample stream into them.

use crate::sample::IqSample;
use vstd::prelude::*;

verus! {

/// Samples in a full packet: the batch that downstream workers expect.
pub const PACKET_SAMPLES: usize = 262_144;

/// A batch of samples with the tags of the recording that it comes from.
#[derive(Debug)]
pub struct Packet {
    /// The samples, in recording order.
    pub samples: Vec<IqSample>,
    /// Bit pattern of the centre frequency in hertz, a double-precision number.
    pub center_frequency_bits: u64,
    /// Bit pattern of the sample rate in hertz, a single-precision number.
    pub sample_rate_bits: u32,
    /// Whether samples were lost before this packet.
    pub overrun: bool,
}

/// What a [`Packet`] holds.
pub struct PacketView {
    pub samples: Seq<IqSample>,
    pub center_frequency_bits: u64,
    pub sample_rate_bits: u32,
    pub overrun: bool,
}

impl View for Packet {
    type V = PacketView;

    open spec fn view(&self) -> PacketView {
        PacketView {
            samples: self.samples@,
            center_frequency_bits: self.center_frequency_bits,
            sample_rate_bits: self.sample_rate_bits,
            overrun: self.overrun,
        }
    }
}

/// The contents of a list of sample vectors.
pub open spec fn contents(batches: Seq<Vec<IqSample>>) -> Seq<Seq<IqSample>> {
    batches.map_values(|batch: Vec<IqSample>| batch@)
}

/// The full batches that `samples` starts with.
pub open spec fn full_batches(samples: Seq<IqSample>) -> Seq<Seq<IqSample>> {
    Seq::new(
        samples.len() / PACKET_SAMPLES as nat,
        |k: int| samples.subrange(k * PACKET_SAMPLES, (k + 1) * PACKET_SAMPLES),
    )
}

/// The samples behind the last full batch.
pub open spec fn remainder(samples: Seq<IqSample>) -> Seq<IqSample> {
    samples.skip(samples.len() as int / PACKET_SAMPLES as int * PACKET_SAMPLES)
}

/// A partial batch, if there is anything to put into it.
pub open spec fn tail_batch(samples: Seq<IqSample>) -> Seq<Seq<IqSample>> {
    if samples.len() == 0 {
        seq![]
    } else {
        seq![samples]
    }
}

/// All batches that a recording of `samples` is handed out in.
pub open spec fn batches(samples: Seq<IqSample>) -> Seq<Seq<IqSample>> {
    full_batches(samples) + tail_batch(remainder(samples))
}

/// Cuts off all full batches; the second result is what is left.
pub fn split_batches(samples: Vec<IqSample>) -> (split: (Vec<Vec<IqSample>>, Vec<IqSample>))
    ensures
        contents(split.0@) == full_batches(samples@),
        split.1@ == remainder(samples@),
        samples@.len() == split.0@.len() * 262_144 + split.1@.len(),
        split.1@.len() < 262_144,
        forall|k: int, j: int|
            0 <= k < split.0@.len() && 0 <= j < 262_144 ==> split.0@[k]@.len() == 262_144
                && #[trigger] split.0@[k]@[j] == samples@[k * 262_144 + j],
        forall|j: int|
            0 <= j < split.1@.len() ==> #[trigger] split.1@[j] == samples@[split.0@.len() * 262_144
                + j],
{
    let ghost all = samples@;
    let ghost size = PACKET_SAMPLES as int;
    let mut full: Vec<Vec<IqSample>> = Vec::new();
    let mut rest = samples;
    proof {
        assert(all.skip(0) =~= all);
    }
    while rest.len() >= PACKET_SAMPLES
        invariant
            size == PACKET_SAMPLES,
            rest@ == all.skip(full@.len() * size),
            full@.len() * size <= all.len(),
            forall|k: int|
                0 <= k < full@.len() ==> #[trigger] full@[k]@ == all.subrange(
                    k * size,
                    (k + 1) * size,
                ),
        decreases rest@.len(),
    {
        let ghost done = full@.len() as int;
        let behind = rest.split_off(PACKET_SAMPLES);
        proof {
            assert(rest@ =~= all.subrange(done * size, (done + 1) * size));
            assert(behind@ =~= all.skip((done + 1) * size));
        }
        full.push(rest);
        rest = behind;
    }
    proof {
        let done = full@.len() as int;
        assert(all.len() == done * size + rest@.len());
        assert(all.len() as int / size == done);
        assert(contents(full@) =~= full_batches(all));
    }
    (full, rest)
}

/// Cutting off the full batches of a longer stream is the same as cutting them
/// off its beginning first, and then off what was left with the rest behind it.
pub proof fn law_batches_resume(front: Seq<IqSample>, back: Seq<IqSample>)
    ensures
        full_batches(front + back) == full_batches(front) + full_batches(remainder(front) + back),
        remainder(front + back) == remainder(remainder(front) + back),
{
    let size = PACKET_SAMPLES as int;
    let n = front.len() as int / size;
    let joined = front + back;
    let resumed = remainder(front) + back;
    assert(joined.len() == n * size + resumed.len());
    assert(joined.len() as int / size == n + resumed.len() as int / size);
    let left = full_batches(joined);
    let right = full_batches(front) + full_batches(resumed);
    assert forall|k: int| 0 <= k < left.len() implies left[k] == right[k] by {
        if k < n {
            assert(left[k] =~= full_batches(front)[k]);
        } else {
            assert(left[k] =~= full_batches(resumed)[k - n]);
        }
    }
    assert(left =~= right);
    assert(remainder(joined) =~= remainder(resumed));
}

/// A stream is its full batches, one after the other, and the remainder.
pub(crate) proof fn lemma_full_then_remainder(samples: Seq<IqSample>)
    ensures
        full_batches(samples).flatten() + remainder(samples) == samples,
    decreases samples.len(),
{
    let size = PACKET_SAMPLES as int;
    let full = full_batches(samples);
    if samples.len() < size {
        assert(full =~= seq![]);
        assert(full.flatten() =~= seq![]);
        assert(remainder(samples) =~= samples);
    } else {
        let front = samples.take(size);
        let back = samples.skip(size);
        assert(samples =~= front + back);
        law_batches_resume(front, back);
        assert(front.subrange(0, size) =~= front);
        assert(full_batches(front) =~= seq![front]);
        assert(remainder(front) =~= seq![]);
        assert(remainder(front) + back =~= back);
        lemma_full_then_remainder(back);
        assert(full.first() =~= front);
        assert(full.drop_first() =~= full_batches(back));
        assert(full.flatten() + remainder(samples) =~= front + (full_batches(back).flatten()
            + remainder(back)));
    }
}

/// A stream is cut every 262144 samples: sample `j` of full batch `k` is number
/// `262144 k + j` of the stream, what is behind the last full batch is the
/// remainder, and that is too short for another one.
pub proof fn law_cut_every_packet(samples: Seq<IqSample>)
    ensures
        ({
            let full = full_batches(samples);
            let rest = remainder(samples);
            &&& samples.len() == full.len() * 262_144 + rest.len()
            &&& rest.len() < 262_144
            &&& forall|k: int| 0 <= k < full.len() ==> (#[trigger] full[k]).len() == 262_144
            &&& forall|k: int, j: int|
                0 <= k < full.len() && 0 <= j < 262_144 ==> #[trigger] full[k][j] == samples[k
                    * 262_144 + j]
            &&& forall|j: int|
                0 <= j < rest.len() ==> #[trigger] rest[j] == samples[full.len() * 262_144 + j]
        }),
{
}

/// What is left at the end makes one more batch, which holds all of it; nothing
/// makes none.
pub proof fn law_tail_is_one_batch(samples: Seq<IqSample>)
    ensures
        samples.len() == 0 <==> tail_batch(samples).len() == 0,
        samples.len() > 0 ==> tail_batch(samples).len() == 1 && tail_batch(samples)[0] == samples,
{
}

/// Nothing is lost, doubled or moved: the batches of a recording, one after the
/// other, are its samples. Every batch holds a sample, every one but the last
/// is full, and none is more than full.
pub proof fn law_batches_hold_everything(samples: Seq<IqSample>)
    ensures
        batches(samples).flatten() == samples,
        forall|k: int|
            0 <= k < batches(samples).len() ==> 0 < (#[trigger] batches(samples)[k]).len()
                <= 262_144,
        forall|k: int|
            0 <= k < batches(samples).len() - 1 ==> (#[trigger] batches(samples)[k]).len()
                == 262_144,
{
    let full = full_batches(samples);
    let rest = remainder(samples);
    lemma_full_then_remainder(samples);
    if rest.len() == 0 {
        assert(batches(samples) =~= full);
        assert(full.flatten() + rest =~= full.flatten());
    } else {
        assert(batches(samples) =~= full.push(rest));
        full.lemma_flatten_push(rest);
    }
}

} // verus!
