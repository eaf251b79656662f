//! Component-level tests: converter saturation, queue FIFO and overflow
//! behaviour, driver chunking and failure policy, and byte framing.

use sleepvoice::convert::{apply_gain, convert_batch, downmix};
use sleepvoice::driver::Driver;
use sleepvoice::queue::{FrameQueue, PushOutcome};
use sleepvoice::sink::pcm_to_le_bytes;

#[test]
fn gain_identity_and_scaling() {
    assert_eq!(apply_gain(0, 1), 0);
    assert_eq!(apply_gain(1000, 10), 10000);
    assert_eq!(apply_gain(-1000, 10), -10000);
    assert_eq!(apply_gain(32767, 1), 32767);
    assert_eq!(apply_gain(-32768, 1), -32768);
    assert_eq!(apply_gain(12345, 0), 0);
}

#[test]
fn gain_saturates_at_both_bounds() {
    assert_eq!(apply_gain(20000, 2), i16::MAX);
    assert_eq!(apply_gain(-20000, 2), i16::MIN);
    assert_eq!(apply_gain(32767, 10), i16::MAX);
    assert_eq!(apply_gain(-32768, 10), i16::MIN);
    // A product exactly on or just past the bound lands on the bound.
    assert_eq!(apply_gain(16384, 2), i16::MAX);
    assert_eq!(apply_gain(-16384, 2), i16::MIN);
}

#[test]
fn gain_from_full_scale_float_sample() {
    // A +1.0 floating-point sample quantized at the capture edge.
    let base = (1.0f32 * i16::MAX as f32).round() as i16;
    assert_eq!(base, 32767);
    assert_eq!(apply_gain(base, 10), i16::MAX);
    let neg = (-1.0f32 * i16::MAX as f32).round() as i16;
    assert_eq!(neg, -32767);
    assert_eq!(apply_gain(neg, 10), i16::MIN);
}

#[test]
fn convert_batch_is_elementwise() {
    let samples: Vec<i16> = vec![0, 100, -100, 30000, -30000];
    let out = convert_batch(&samples, 3);
    assert_eq!(out, vec![0, 300, -300, 32767, -32768]);
}

#[test]
fn downmix_averages_channel_pairs() {
    assert_eq!(downmix(&vec![10, 20, -10, -20], 2), vec![15, -15]);
    // Rounding is toward zero on both signs.
    assert_eq!(downmix(&vec![10, 21, -10, -21], 2), vec![15, -15]);
    // A trailing incomplete group is dropped.
    assert_eq!(downmix(&vec![1, 3, 7], 2), vec![2]);
}

#[test]
fn downmix_mono_is_identity() {
    let frame: Vec<i16> = vec![5, -6, 32767, -32768, 0];
    assert_eq!(downmix(&frame, 1), frame);
}

#[test]
fn downmix_extremes_stay_in_range() {
    assert_eq!(downmix(&vec![i16::MIN, i16::MIN], 2), vec![i16::MIN]);
    assert_eq!(downmix(&vec![i16::MAX, i16::MAX, i16::MAX], 3), vec![i16::MAX]);
    assert_eq!(downmix(&vec![i16::MIN, i16::MAX], 2), vec![0]);
}

#[test]
fn queue_preserves_fifo_order() {
    let mut q = FrameQueue::new(4);
    assert_eq!(q.try_push(vec![1, 2]), PushOutcome::Accepted);
    assert_eq!(q.try_push(vec![3]), PushOutcome::Accepted);
    assert_eq!(q.try_push(vec![4, 5]), PushOutcome::Accepted);
    assert_eq!(q.try_pop(), Some(vec![1, 2]));
    assert_eq!(q.try_pop(), Some(vec![3]));
    assert_eq!(q.try_pop(), Some(vec![4, 5]));
    assert_eq!(q.try_pop(), None);
    assert_eq!(q.dropped_count(), 0);
}

#[test]
fn queue_drops_on_overflow_and_counts() {
    let mut q = FrameQueue::new(2);
    assert_eq!(q.try_push(vec![1]), PushOutcome::Accepted);
    assert_eq!(q.try_push(vec![2]), PushOutcome::Accepted);
    assert_eq!(q.try_push(vec![3]), PushOutcome::FullDropped);
    assert_eq!(q.try_push(vec![4]), PushOutcome::FullDropped);
    assert_eq!(q.dropped_count(), 2);
    // The queued batches are untouched by the overflow.
    assert_eq!(q.try_pop(), Some(vec![1]));
    assert_eq!(q.try_pop(), Some(vec![2]));
}

#[test]
fn queue_drain_returns_everything_pushed() {
    let mut q = FrameQueue::new(8);
    q.try_push(vec![1]);
    q.try_push(vec![2, 3]);
    q.try_push(vec![]);
    let rest = q.drain_remaining();
    assert_eq!(rest, vec![vec![1], vec![2, 3], vec![]]);
    assert_eq!(q.len(), 0);
}

#[test]
fn driver_buffers_until_chunk_threshold() {
    let mut d = Driver::new(4);
    assert_eq!(d.accept(&vec![1, 2]), None);
    assert_eq!(d.accept(&vec![3, 4]), Some(vec![1, 2, 3, 4]));
    assert_eq!(d.accept(&vec![5]), None);
    assert_eq!(d.pending_len(), 1);
    let tail = d.finalize();
    assert_eq!(tail, vec![5]);
    assert!(d.finalized());
}

#[test]
fn driver_emits_oversized_batch_at_once() {
    let mut d = Driver::new(3);
    assert_eq!(d.accept(&vec![1, 2, 3, 4, 5]), Some(vec![1, 2, 3, 4, 5]));
    let tail = d.finalize();
    assert_eq!(tail, Vec::<i16>::new());
}

#[test]
fn driver_aborts_on_third_consecutive_failure() {
    let mut d = Driver::new(4);
    assert!(!d.note_feed_outcome(false));
    assert!(!d.note_feed_outcome(false));
    assert!(d.note_feed_outcome(false));
}

#[test]
fn driver_success_resets_the_strike_count() {
    let mut d = Driver::new(4);
    assert!(!d.note_feed_outcome(false));
    assert!(!d.note_feed_outcome(false));
    assert!(!d.note_feed_outcome(true));
    assert!(!d.note_feed_outcome(false));
    assert!(!d.note_feed_outcome(false));
    assert!(d.note_feed_outcome(false));
}

#[test]
fn le_bytes_match_the_std_encoding() {
    let samples: Vec<i16> = vec![0, 1, -1, 32767, -32768, 12345, -12345, 256, -257];
    let expected: Vec<u8> = samples.iter().flat_map(|s| s.to_le_bytes()).collect();
    assert_eq!(pcm_to_le_bytes(&samples), expected);
}

#[test]
fn le_bytes_of_empty_batch_are_empty() {
    assert_eq!(pcm_to_le_bytes(&Vec::new()), Vec::<u8>::new());
}
