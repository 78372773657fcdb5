use num_complex::Complex32;
use sdr_file::pool::{emptied, BufferPool, POOL_BUFFERS};
use sdr_file::PACKET_SAMPLES;

#[test]
fn a_new_pool_has_all_its_buffers_idle() {
    let pool = BufferPool::new();
    assert_eq!(pool.give_back.capacity(), Some(POOL_BUFFERS));
    assert_eq!(pool.idle.len(), POOL_BUFFERS);
    let buffer = pool.take(&[]);
    assert!(buffer.is_empty());
    assert!(buffer.capacity() >= PACKET_SAMPLES);
    assert_eq!(pool.idle.len(), POOL_BUFFERS - 1);
}

#[test]
fn a_returned_buffer_comes_back_with_new_samples_only() {
    let pool = BufferPool::new();
    let mut kept = Vec::new();
    for _ in 0..POOL_BUFFERS {
        kept.push(pool.take(&[]));
    }
    assert_eq!(pool.idle.len(), 0);
    // What is given back becomes idle: the two ends belong to one channel.
    pool.give_back.send(Vec::new()).unwrap();
    assert_eq!(pool.idle.len(), 1);
    assert!(pool.take(&[]).is_empty());
    let mut used = kept.pop().unwrap();
    used.push(Complex32::new(1.0, 2.0));
    let place = used.as_ptr();
    pool.give_back.send(used).unwrap();
    let samples = [Complex32::new(3.0, 4.0), Complex32::new(-5.0, 6.0)];
    let again = pool.take(&samples);
    assert_eq!(again, samples);
    assert_eq!(again.as_ptr(), place);
    // With nothing idle a new buffer is made.
    let fresh = pool.take(&samples[1..]);
    assert_eq!(fresh, samples[1..]);
    assert!(fresh.capacity() >= PACKET_SAMPLES);
}

#[test]
fn emptied_forgets_old_samples() {
    assert!(emptied(Some(vec![Complex32::new(3.0, 4.0); 9])).is_empty());
    assert!(emptied(None).is_empty());
}
