//! End-to-end scenarios: a synthetic source drives the verified pipeline
//! the way the application shell does, and the session outcomes are
//! checked against the designed behaviour.

use sleepvoice::convert::convert_batch;
use sleepvoice::driver::Driver;
use sleepvoice::queue::{FrameQueue, PushOutcome};
use sleepvoice::session::{
    capture_decision, drain_and_finalize, init_outcome, pump_available, run_capture, Decision,
    ErrorKind, Phase, Session, SessionError, Tick, Transcript,
};
use sleepvoice::sink::pcm_to_le_bytes;

/// Ten seconds of silence at 16 kHz: nothing is dropped, every sample
/// reaches the decoder, and the debug file would hold exactly
/// `10 * 16000 * 2` zero bytes.
#[test]
fn silent_ten_second_capture() {
    let rate: usize = 16000;
    let mut session = Session::new();
    assert_eq!(init_outcome(true, true, true, true, true), None);
    session.start();

    let mut queue = FrameQueue::new(16);
    let mut driver = Driver::new(rate);
    let mut submitted: Vec<i16> = Vec::new();
    let mut debug_bytes: Vec<u8> = Vec::new();

    for second in 0..10u64 {
        assert_eq!(
            capture_decision(second * 1000, 10_000, false, false, false),
            Decision::Continue
        );
        let frame: Vec<i16> = vec![0; rate];
        let converted = convert_batch(&frame, 1);
        assert_eq!(queue.try_push(converted), PushOutcome::Accepted);
        for chunk in pump_available(&mut queue, &mut driver) {
            debug_bytes.extend(pcm_to_le_bytes(&chunk));
            submitted.extend(chunk);
        }
    }
    assert_eq!(capture_decision(10_000, 10_000, false, false, false), Decision::Drain);
    session.begin_drain();
    for chunk in drain_and_finalize(&mut queue, &mut driver, false) {
        debug_bytes.extend(pcm_to_le_bytes(&chunk));
        submitted.extend(chunk);
    }
    session.complete();

    assert_eq!(session.phase(), Phase::Done);
    assert!(driver.finalized());
    assert_eq!(queue.dropped_count(), 0);
    assert_eq!(submitted.len(), 10 * rate);
    assert!(submitted.iter().all(|&s| s == 0));
    assert_eq!(debug_bytes.len(), 10 * rate * 2);
    assert!(debug_bytes.iter().all(|&b| b == 0));

    let transcript = Transcript {
        text: String::new(),
        dropped_batches: queue.dropped_count(),
        sample_rate: rate as u32,
        cancelled_partial: session.cancelled_partial(),
    };
    assert_eq!(transcript.text, "");
    assert_eq!(transcript.dropped_batches, 0);
    assert!(!transcript.cancelled_partial);
}

/// A producer far faster than the consumer: batches are dropped and
/// counted, the session still completes, and the terminator runs once.
#[test]
fn overflow_resilience() {
    let mut session = Session::new();
    session.start();
    let mut queue = FrameQueue::new(4);
    let mut driver = Driver::new(1000);

    // A 192 kHz burst into a queue sized for far less, with no consumer
    // pumping in between.
    let mut accepted: u64 = 0;
    for _ in 0..24 {
        let batch: Vec<i16> = vec![7; 8000];
        if queue.try_push(batch) == PushOutcome::Accepted {
            accepted += 1;
        }
    }
    assert!(queue.dropped_count() > 0);
    assert_eq!(accepted + queue.dropped_count(), 24);

    session.begin_drain();
    let chunks = drain_and_finalize(&mut queue, &mut driver, false);
    session.complete();

    let delivered: usize = chunks.iter().map(|c| c.len()).sum();
    assert_eq!(delivered as u64, accepted * 8000);
    assert_eq!(session.phase(), Phase::Done);
    assert!(driver.finalized());
}

/// The device disappears three seconds in: the session aborts with a
/// device-lost fault and surfaces the partial text gathered so far.
#[test]
fn device_gone_midway() {
    let mut session = Session::new();
    session.start();
    let mut queue = FrameQueue::new(8);
    let mut driver = Driver::new(16000);

    for second in 0..3u64 {
        assert_eq!(
            capture_decision(second * 1000, 10_000, false, false, false),
            Decision::Continue
        );
        queue.try_push(vec![5; 16000]);
        pump_available(&mut queue, &mut driver);
    }
    let d = capture_decision(3000, 10_000, false, true, false);
    assert_eq!(d, Decision::Abort(ErrorKind::DeviceLost));
    session.abort(ErrorKind::DeviceLost);

    assert_eq!(session.phase(), Phase::Aborted);
    assert_eq!(session.error(), Some(ErrorKind::DeviceLost));
    let err = SessionError {
        kind: session.error().unwrap(),
        partial_text: String::from("partial of first three seconds"),
    };
    assert_eq!(err.kind, ErrorKind::DeviceLost);
    assert!(!err.partial_text.is_empty());
}

/// A cancel one second into a ten-second session: the machine drains and
/// reaches `Done`, not `Aborted`, with about one second of audio fed.
#[test]
fn early_cancel() {
    let mut session = Session::new();
    session.start();
    let mut queue = FrameQueue::new(8);
    let mut driver = Driver::new(16000);

    assert_eq!(capture_decision(0, 10_000, false, false, false), Decision::Continue);
    queue.try_push(vec![1; 16000]);
    let fed_live: usize = pump_available(&mut queue, &mut driver).iter().map(|c| c.len()).sum();

    assert_eq!(capture_decision(1000, 10_000, true, false, false), Decision::Drain);
    session.begin_drain();
    let fed_drain: usize =
        drain_and_finalize(&mut queue, &mut driver, false).iter().map(|c| c.len()).sum();
    session.complete();

    assert_eq!(session.phase(), Phase::Done);
    assert_eq!(session.error(), None);
    assert_eq!(fed_live + fed_drain, 16000);
}

/// A cancel observed while already draining: the queue tail is skipped
/// and the completed transcript is marked cancelled-partial.
#[test]
fn cancel_during_drain_skips_tail() {
    let mut session = Session::new();
    session.start();
    let mut queue = FrameQueue::new(8);
    let mut driver = Driver::new(4);

    queue.try_push(vec![1, 2]);
    queue.try_push(vec![3, 4]);
    session.begin_drain();
    session.cancel_drain();
    let chunks = drain_and_finalize(&mut queue, &mut driver, true);
    session.complete();

    assert_eq!(session.phase(), Phase::Done);
    assert!(session.cancelled_partial());
    // The skipped tail never reaches the decoder.
    assert_eq!(chunks, Vec::<Vec<i16>>::new());
    assert_eq!(queue.len(), 0);
    assert!(driver.finalized());
}

/// A missing model fails the session before the audio device is ever
/// opened, whatever state the device would have been in.
#[test]
fn model_missing() {
    assert_eq!(init_outcome(false, true, true, true, true), Some(ErrorKind::ModelLoadFailed));
    assert_eq!(init_outcome(false, false, false, false, false), Some(ErrorKind::ModelLoadFailed));
    let mut session = Session::new();
    session.abort(ErrorKind::ModelLoadFailed);
    assert_eq!(session.phase(), Phase::Aborted);
    assert_eq!(session.error(), Some(ErrorKind::ModelLoadFailed));
}

/// Each initialization step maps to its own fault, in order.
#[test]
fn init_fault_precedence() {
    assert_eq!(init_outcome(true, false, true, true, true), Some(ErrorKind::NoInputDevice));
    assert_eq!(init_outcome(true, true, false, true, true), Some(ErrorKind::UnsupportedConfig));
    assert_eq!(init_outcome(true, true, true, false, true), Some(ErrorKind::RecognizerInitFailed));
    assert_eq!(init_outcome(true, true, true, true, false), Some(ErrorKind::StreamStartFailed));
    assert_eq!(init_outcome(true, true, true, true, true), None);
}

/// The timer never stops the producer early: capture continues strictly
/// below the configured duration and stops once it is reached.
#[test]
fn timer_is_not_early() {
    for duration in [1u64, 10, 1000, 10_000] {
        assert_eq!(
            capture_decision(duration - 1, duration, false, false, false),
            Decision::Continue
        );
        assert_eq!(capture_decision(duration, duration, false, false, false), Decision::Drain);
        assert_eq!(
            capture_decision(duration + 1, duration, false, false, false),
            Decision::Drain
        );
    }
}

/// An unstable decoder aborts the session with its own fault; a device
/// loss wins over everything else.
#[test]
fn fault_priorities() {
    assert_eq!(
        capture_decision(0, 10_000, false, false, true),
        Decision::Abort(ErrorKind::DecoderUnstable)
    );
    assert_eq!(
        capture_decision(0, 10_000, true, true, true),
        Decision::Abort(ErrorKind::DeviceLost)
    );
    assert_eq!(capture_decision(0, 10_000, true, false, false), Decision::Drain);
}

fn quiet_tick(samples: usize) -> Tick {
    Tick { batches: vec![vec![0; samples]], cancel: false, device_lost: false }
}

/// A whole scripted session, uninterrupted: every produced sample is
/// submitted, in order, nothing is dropped, and the run finalizes once.
#[test]
fn scripted_run_completes() {
    let mut ticks: Vec<Tick> = Vec::new();
    for _ in 0..10 {
        ticks.push(quiet_tick(16000));
    }
    let report = run_capture(&ticks, 1000, 10_000, 16, 16000);
    assert_eq!(report.phase, Phase::Done);
    assert_eq!(report.error, None);
    assert!(report.finalized);
    assert_eq!(report.dropped, 0);
    let total: usize = report.chunks.iter().map(|c| c.len()).sum();
    assert_eq!(total, 10 * 16000);
}

/// A scripted device loss mid-run: the session aborts with the fault
/// and never invokes the terminator.
#[test]
fn scripted_run_aborts_on_device_loss() {
    let mut ticks: Vec<Tick> = Vec::new();
    for second in 0..10 {
        let mut t = quiet_tick(16000);
        t.device_lost = second == 3;
        ticks.push(t);
    }
    let report = run_capture(&ticks, 1000, 10_000, 16, 16000);
    assert_eq!(report.phase, Phase::Aborted);
    assert_eq!(report.error, Some(ErrorKind::DeviceLost));
    assert!(!report.finalized);
    let total: usize = report.chunks.iter().map(|c| c.len()).sum();
    assert_eq!(total, 3 * 16000);
}

/// A scripted early cancel: the run drains and completes normally.
#[test]
fn scripted_run_drains_on_cancel() {
    let mut ticks: Vec<Tick> = Vec::new();
    for second in 0..10 {
        let mut t = quiet_tick(16000);
        t.cancel = second == 1;
        ticks.push(t);
    }
    let report = run_capture(&ticks, 1000, 10_000, 16, 16000);
    assert_eq!(report.phase, Phase::Done);
    assert_eq!(report.error, None);
    assert!(report.finalized);
    let total: usize = report.chunks.iter().map(|c| c.len()).sum();
    assert_eq!(total, 16000);
}

/// A scripted overflow: a tick bursts past the queue capacity; the run
/// still completes, with the overflow counted.
#[test]
fn scripted_run_survives_overflow() {
    let mut ticks: Vec<Tick> = Vec::new();
    let mut burst = Vec::new();
    for _ in 0..12 {
        burst.push(vec![7i16; 8000]);
    }
    ticks.push(Tick { batches: burst, cancel: false, device_lost: false });
    let report = run_capture(&ticks, 1000, 10_000, 4, 1000);
    assert_eq!(report.phase, Phase::Done);
    assert!(report.finalized);
    assert!(report.dropped > 0);
    let total: usize = report.chunks.iter().map(|c| c.len()).sum();
    assert_eq!(total as u64 + report.dropped * 8000, 12 * 8000);
}

/// Ordering end to end on a concrete burst: the samples handed to the
/// decoder are exactly the produced samples, in the produced order.
#[test]
fn ordering_through_queue_and_driver() {
    let mut queue = FrameQueue::new(8);
    let mut driver = Driver::new(3);
    for batch in [vec![1i16, 2], vec![3, 4], vec![5]] {
        assert_eq!(queue.try_push(batch), PushOutcome::Accepted);
    }
    let chunks = drain_and_finalize(&mut queue, &mut driver, false);
    let flat: Vec<i16> = chunks.into_iter().flatten().collect();
    assert_eq!(flat, vec![1, 2, 3, 4, 5]);
    assert_eq!(queue.dropped_count(), 0);
}
