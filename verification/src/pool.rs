//! Recycling of sample buffers between the playback and its consumer.

use crate::packet::PACKET_SAMPLES;
use crossbeam::channel::{Receiver, Sender};
use num_complex::Complex32;
use vstd::prelude::*;

verus! {

/// `crossbeam::channel::Sender`. Nothing is stated of it but the name below.
#[verifier::external_type_specification]
#[verifier::external_body]
#[verifier::reject_recursive_types(T)]
pub struct ExSender<T>(crossbeam::channel::Sender<T>);

/// `crossbeam::channel::Receiver`. Nothing is stated of it.
#[verifier::external_type_specification]
#[verifier::external_body]
#[verifier::reject_recursive_types(T)]
pub struct ExReceiver<T>(crossbeam::channel::Receiver<T>);

/// `num_complex::Complex`. Nothing is stated of it: samples are only carried.
#[verifier::external_type_specification]
#[verifier::external_body]
#[verifier::reject_recursive_types(T)]
pub struct ExComplex<T>(num_complex::Complex<T>);

/// The capacity of a bounded channel, which is fixed when it is made.
pub uninterp spec fn channel_capacity(sender: Sender<Vec<Complex32>>) -> Option<usize>;

/// Whether what goes into this sender comes out of this receiver: the two are
/// ends of one channel, which they stay.
pub uninterp spec fn connected(
    sender: Sender<Vec<Complex32>>,
    receiver: Receiver<Vec<Complex32>>,
) -> bool;

/// `crossbeam::channel::bounded`: the two ends of one channel that holds at most
/// `capacity` buffers. It panics only where the capacity is too large to set one up.
#[verifier::external_body]
fn bounded(capacity: usize) -> (ends: (Sender<Vec<Complex32>>, Receiver<Vec<Complex32>>))
    requires
        capacity <= 0x1_0000,
    ensures
        channel_capacity(ends.0) == Some(capacity),
        connected(ends.0, ends.1),
{
    crossbeam::channel::bounded(capacity)
}

/// `crossbeam::channel::Sender::try_send`: puts a buffer into the channel
/// without blocking, or drops it where the channel is full or has no receiver.
/// Which of the two happens depends on what other threads do, so nothing is
/// stated of it.
#[verifier::external_body]
fn try_send(sender: &Sender<Vec<Complex32>>, buffer: Vec<Complex32>) {
    let _ = sender.try_send(buffer);
}

/// `crossbeam::channel::Receiver::try_recv`: takes a buffer out of the channel
/// without blocking, if one is there. Whether one is, and what it holds, depends
/// on what other threads did, so nothing is stated of it.
#[verifier::external_body]
fn try_recv(receiver: &Receiver<Vec<Complex32>>) -> Option<Vec<Complex32>> {
    receiver.try_recv().ok()
}

/// Buffers in circulation.
pub const POOL_BUFFERS: usize = 256;

/// Sample buffers that the consumer hands back for reuse.
pub struct BufferPool {
    /// Where the consumer hands back a buffer.
    pub give_back: Sender<Vec<Complex32>>,
    /// Where idle buffers wait.
    pub idle: Receiver<Vec<Complex32>>,
}

/// An empty buffer: the recycled one without what it held, or a new one.
pub fn emptied(recycled: Option<Vec<Complex32>>) -> (buffer: Vec<Complex32>)
    ensures
        buffer@ == Seq::<Complex32>::empty(),
{
    match recycled {
        Some(used) => {
            let mut buffer = used;
            buffer.clear();
            buffer
        },
        None => Vec::with_capacity(PACKET_SAMPLES),
    }
}

impl BufferPool {
    /// A pool over one channel with room for all its buffers: what is given back
    /// becomes idle. A buffer is put in for every place; how many are idle later
    /// depends on the threads that use the pool.
    pub fn new() -> (pool: BufferPool)
        ensures
            channel_capacity(pool.give_back) == Some(256usize),
            connected(pool.give_back, pool.idle),
    {
        let (give_back, idle) = bounded(POOL_BUFFERS);
        let mut made: usize = 0;
        while made < POOL_BUFFERS
            decreases POOL_BUFFERS - made,
        {
            try_send(&give_back, Vec::with_capacity(PACKET_SAMPLES));
            made = made + 1;
        }
        BufferPool { give_back, idle }
    }

    /// A buffer that holds the given samples, and nothing of what it held
    /// before: an idle one, or a new one where none is idle.
    pub fn take(&self, samples: &[Complex32]) -> (buffer: Vec<Complex32>)
        ensures
            buffer@ == samples@,
    {
        let mut buffer = emptied(try_recv(&self.idle));
        let mut k: usize = 0;
        while k < samples.len()
            invariant
                k <= samples@.len(),
                buffer@ == samples@.take(k as int),
            decreases samples@.len() - k,
        {
            buffer.push(samples[k]);
            k = k + 1;
            assert(buffer@ =~= samples@.take(k as int));
        }
        assert(samples@.take(k as int) =~= samples@);
        buffer
    }
}

} // verus!
