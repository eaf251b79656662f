//! Session controller: the lifecycle of one recording session.
//!
//! A session moves `Idle -> Capturing -> Draining -> Done`, or to
//! `Aborted` on a fatal fault. The decisions that drive the moves — which
//! initialization fault wins, when the capture loop stops, what the drain
//! must deliver — are verified here; the shell merely performs the
//! corresponding outside work (clock reads, stream start and stop,
//! decoder calls) and feeds the observations back in.

use vstd::prelude::*;

use crate::driver::Driver;
use crate::queue::FrameQueue;

verus! {

/// Lifecycle phase of a recording session.
#[derive(Clone, Copy, PartialEq, Eq, Structural, Debug)]
pub enum Phase {
    /// Nothing acquired yet.
    Idle,
    /// Stream running; the pump loop is consuming the queue.
    Capturing,
    /// Stream stopped; the queue remainder is being delivered.
    Draining,
    /// Finalized; the transcript was produced.
    Done,
    /// A fatal fault ended the session.
    Aborted,
}

/// The faults a session can end with.
#[derive(Clone, Copy, PartialEq, Eq, Structural, Debug)]
pub enum ErrorKind {
    /// The speech-model directory could not be loaded.
    ModelLoadFailed,
    /// No default input device exists.
    NoInputDevice,
    /// The device refused the requested stream configuration.
    UnsupportedConfig,
    /// The decoder could not be bound to the effective sample rate.
    RecognizerInitFailed,
    /// The operating system refused to start the stream.
    StreamStartFailed,
    /// The input device disappeared during capture.
    DeviceLost,
    /// Three consecutive chunks failed to decode.
    DecoderUnstable,
}

/// What the capture loop should do next.
#[derive(Clone, Copy, PartialEq, Eq, Structural, Debug)]
pub enum Decision {
    /// Keep capturing.
    Continue,
    /// Stop the stream and drain the queue.
    Drain,
    /// Stop the stream and abort with the given fault.
    Abort(ErrorKind),
}

/// Immutable configuration fixed at session start.
pub struct SessionConfig {
    /// How long the producer runs, in milliseconds of wall clock.
    pub duration_ms: u64,
    /// Linear gain applied to every sample.
    pub gain: i16,
    /// Bound of the frame queue, in batches.
    pub queue_capacity: usize,
    /// Minimum accumulated samples before a chunk goes to the decoder.
    pub chunk_size: usize,
}

/// What a completed session returns.
pub struct Transcript {
    /// The decoder's final text.
    pub text: String,
    /// Batches dropped on queue overflow, surfaced as metadata.
    pub dropped_batches: u64,
    /// The rate the device actually delivered, in hertz.
    pub sample_rate: u32,
    /// Whether a cancel during draining skipped the queue tail.
    pub cancelled_partial: bool,
}

/// What an aborted session returns.
pub struct SessionError {
    /// The fault that ended the session.
    pub kind: ErrorKind,
    /// The best partial text gathered before the fault.
    pub partial_text: String,
}

/// Maps the outcome of the initialization steps to the fault of the
/// first step that failed, in the order the session performs them:
/// model, device, device configuration, recognizer, stream start. In
/// particular a missing model fails the session before the audio device
/// is ever touched.
pub fn init_outcome(
    model_ok: bool,
    device_ok: bool,
    config_ok: bool,
    recognizer_ok: bool,
    stream_ok: bool,
) -> (r: Option<ErrorKind>)
    ensures
        r is None <==> (model_ok && device_ok && config_ok && recognizer_ok && stream_ok),
        !model_ok ==> r == Some(ErrorKind::ModelLoadFailed),
        model_ok && !device_ok ==> r == Some(ErrorKind::NoInputDevice),
        model_ok && device_ok && !config_ok ==> r == Some(ErrorKind::UnsupportedConfig),
        model_ok && device_ok && config_ok && !recognizer_ok ==> r == Some(
            ErrorKind::RecognizerInitFailed,
        ),
        model_ok && device_ok && config_ok && recognizer_ok && !stream_ok ==> r == Some(
            ErrorKind::StreamStartFailed,
        ),
{
    if !model_ok {
        Some(ErrorKind::ModelLoadFailed)
    } else if !device_ok {
        Some(ErrorKind::NoInputDevice)
    } else if !config_ok {
        Some(ErrorKind::UnsupportedConfig)
    } else if !recognizer_ok {
        Some(ErrorKind::RecognizerInitFailed)
    } else if !stream_ok {
        Some(ErrorKind::StreamStartFailed)
    } else {
        None
    }
}

/// One decision of the capture pump loop. Faults win over a cancel, a
/// cancel wins over the timer, and the loop keeps capturing exactly as
/// long as no fault, no cancel and the monotonic elapsed time is still
/// short of the configured duration — the producer is never stopped
/// early by the timer.
pub fn capture_decision(
    elapsed_ms: u64,
    duration_ms: u64,
    cancel: bool,
    device_lost: bool,
    decoder_unstable: bool,
) -> (d: Decision)
    ensures
        device_lost ==> d == Decision::Abort(ErrorKind::DeviceLost),
        !device_lost && decoder_unstable ==> d == Decision::Abort(ErrorKind::DecoderUnstable),
        !device_lost && !decoder_unstable && cancel ==> d == Decision::Drain,
        !device_lost && !decoder_unstable && !cancel && elapsed_ms >= duration_ms ==> d
            == Decision::Drain,
        d == Decision::Continue <==> (!device_lost && !decoder_unstable && !cancel && elapsed_ms
            < duration_ms),
{
    if device_lost {
        Decision::Abort(ErrorKind::DeviceLost)
    } else if decoder_unstable {
        Decision::Abort(ErrorKind::DecoderUnstable)
    } else if cancel {
        Decision::Drain
    } else if elapsed_ms >= duration_ms {
        Decision::Drain
    } else {
        Decision::Continue
    }
}

/// Pulls every batch currently queued and hands it to the driver, in
/// FIFO order; returns the chunks the driver emitted, in submission
/// order. Afterwards the queue is empty and every queued sample has been
/// accepted by the driver with its order preserved.
pub fn pump_available(queue: &mut FrameQueue, driver: &mut Driver) -> (chunks: Vec<Vec<i16>>)
    requires
        old(queue).wf(),
        old(driver).wf(),
        !old(driver).is_finalized(),
        old(driver).pending_spec().len() + old(queue).batches().flatten().len() <= usize::MAX
            as int,
    ensures
        final(queue).wf(),
        final(driver).wf(),
        !final(driver).is_finalized(),
        final(queue).cap() == old(queue).cap(),
        final(queue).dropped_spec() == old(queue).dropped_spec(),
        final(queue).batches().len() == 0,
        final(driver).chunk_size_spec() == old(driver).chunk_size_spec(),
        final(driver).strikes_spec() == old(driver).strikes_spec(),
        final(driver).accepted_spec() == old(driver).accepted_spec() + old(
            queue,
        ).batches().flatten(),
        final(driver).emitted_spec() == old(driver).emitted_spec() + chunks@.map(
            |i: int, c: Vec<i16>| c@,
        ).flatten(),
{
    broadcast use Seq::lemma_flatten_push;

    let mut chunks: Vec<Vec<i16>> = Vec::new();
    let ghost orig_batches = queue.batches();
    let ghost mut processed: Seq<Seq<i16>> = Seq::empty();
    proof {
        assert(processed.flatten() == Seq::<i16>::empty());
        assert(old(driver).accepted_spec() + processed.flatten() =~= old(driver).accepted_spec());
        assert(chunks@.map(|i: int, c: Vec<i16>| c@).flatten() == Seq::<i16>::empty());
        assert(old(driver).emitted_spec() + chunks@.map(|i: int, c: Vec<i16>| c@).flatten() =~= old(
            driver,
        ).emitted_spec());
    }
    let mut remaining: usize = queue.len();
    while remaining > 0
        invariant
            queue.wf(),
            driver.wf(),
            !driver.is_finalized(),
            remaining as nat == queue.batches().len(),
            queue.cap() == old(queue).cap(),
            queue.dropped_spec() == old(queue).dropped_spec(),
            driver.chunk_size_spec() == old(driver).chunk_size_spec(),
            driver.strikes_spec() == old(driver).strikes_spec(),
            orig_batches == processed + queue.batches(),
            driver.accepted_spec() == old(driver).accepted_spec() + processed.flatten(),
            driver.emitted_spec() == old(driver).emitted_spec() + chunks@.map(
                |i: int, c: Vec<i16>| c@,
            ).flatten(),
            driver.pending_spec().len() + queue.batches().flatten().len() <= usize::MAX as int,
        decreases remaining,
    {
        let ghost qb = queue.batches();
        let b_opt = queue.try_pop();
        let b = b_opt.unwrap();
        proof {
            assert(qb.flatten() == qb.first() + qb.drop_first().flatten());
            assert(qb.drop_first() =~= queue.batches());
            assert(qb.first() == b@);
        }
        let chunk = driver.accept(&b);
        proof {
            let pp = processed;
            processed = processed.push(b@);
            pp.lemma_flatten_push(b@);
            assert(orig_batches =~= processed + queue.batches());
            assert(driver.accepted_spec() =~= old(driver).accepted_spec() + processed.flatten());
        }
        match chunk {
            Some(c) => {
                let ghost pre_chunks = chunks@.map(|i: int, c: Vec<i16>| c@);
                chunks.push(c);
                proof {
                    assert(chunks@.map(|i: int, c: Vec<i16>| c@) =~= pre_chunks.push(c@));
                    pre_chunks.lemma_flatten_push(c@);
                    assert(driver.emitted_spec() =~= old(driver).emitted_spec() + chunks@.map(
                        |i: int, c: Vec<i16>| c@,
                    ).flatten());
                }
            },
            None => {},
        }
        remaining = remaining - 1;
    }
    proof {
        assert(orig_batches =~= processed);
    }
    chunks
}

/// Ends the stream of samples: delivers what is still queued (unless a
/// cancel during draining asked for the tail to be skipped), then
/// invokes the driver's terminator exactly once. Afterwards the driver
/// has emitted every sample it accepted, in order.
pub fn drain_and_finalize(queue: &mut FrameQueue, driver: &mut Driver, skip_tail: bool) -> (chunks:
    Vec<Vec<i16>>)
    requires
        old(queue).wf(),
        old(driver).wf(),
        !old(driver).is_finalized(),
        old(driver).pending_spec().len() + old(queue).batches().flatten().len() <= usize::MAX
            as int,
    ensures
        final(queue).wf(),
        final(driver).wf(),
        final(driver).is_finalized(),
        final(queue).batches().len() == 0,
        final(queue).cap() == old(queue).cap(),
        final(queue).dropped_spec() == old(queue).dropped_spec(),
        !skip_tail ==> final(driver).accepted_spec() == old(driver).accepted_spec() + old(
            queue,
        ).batches().flatten(),
        skip_tail ==> final(driver).accepted_spec() == old(driver).accepted_spec(),
        final(driver).emitted_spec() == final(driver).accepted_spec(),
        final(driver).emitted_spec() == old(driver).emitted_spec() + chunks@.map(
            |i: int, c: Vec<i16>| c@,
        ).flatten(),
{
    broadcast use Seq::lemma_flatten_push;

    let mut chunks: Vec<Vec<i16>>;
    if skip_tail {
        let discarded = queue.drain_remaining();
        chunks = Vec::new();
        proof {
            assert(chunks@.map(|i: int, c: Vec<i16>| c@).flatten() == Seq::<i16>::empty());
        }
    } else {
        chunks = pump_available(queue, driver);
    }
    let ghost pre_chunks = chunks@.map(|i: int, c: Vec<i16>| c@);
    let tail = driver.finalize();
    if tail.len() > 0 {
        chunks.push(tail);
        proof {
            assert(chunks@.map(|i: int, c: Vec<i16>| c@) =~= pre_chunks.push(tail@));
        }
    } else {
        proof {
            assert(tail@ =~= Seq::<i16>::empty());
            assert(pre_chunks.flatten() + tail@ =~= pre_chunks.flatten());
        }
    }
    proof {
        assert(final(driver).emitted_spec() == old(driver).emitted_spec() + chunks@.map(
            |i: int, c: Vec<i16>| c@,
        ).flatten());
    }
    chunks
}

/// The transition relation of the session state machine: `Done` and
/// `Aborted` are terminal, draining follows capturing, and a fatal
/// fault may abort from any live phase.
pub open spec fn phase_step(p: Phase, q: Phase) -> bool {
    match p {
        Phase::Idle => q == Phase::Idle || q == Phase::Capturing || q == Phase::Aborted,
        Phase::Capturing => q == Phase::Capturing || q == Phase::Draining || q == Phase::Aborted,
        Phase::Draining => q == Phase::Draining || q == Phase::Done || q == Phase::Aborted,
        Phase::Done => q == Phase::Done,
        Phase::Aborted => q == Phase::Aborted,
    }
}

/// A legal run: starts idle and only ever takes legal steps.
pub open spec fn is_run(r: Seq<Phase>) -> bool {
    &&& r.len() >= 1
    &&& r[0] == Phase::Idle
    &&& forall|i: int| 0 <= i < r.len() - 1 ==> phase_step(r[i], #[trigger] r[i + 1])
}

/// The step from position `i` invokes the decoder's stream terminator.
pub open spec fn is_finalize_edge(r: Seq<Phase>, i: int) -> bool {
    0 <= i < r.len() - 1 && r[i] == Phase::Draining && r[i + 1] == Phase::Done
}

/// How many steps of the run invoke the stream terminator.
pub open spec fn finalize_count(r: Seq<Phase>) -> nat
    decreases r.len(),
{
    if r.len() <= 1 {
        0
    } else {
        finalize_count(r.drop_last()) + if is_finalize_edge(r, r.len() - 2) {
            1nat
        } else {
            0nat
        }
    }
}

/// The step from position `i` stops the audio stream: it leaves
/// `Capturing`, after which no producer push can happen.
pub open spec fn is_stop_edge(r: Seq<Phase>, i: int) -> bool {
    0 <= i < r.len() - 1 && r[i] == Phase::Capturing && r[i + 1] != Phase::Capturing
}

/// How many steps of the run stop the audio stream.
pub open spec fn stop_count(r: Seq<Phase>) -> nat
    decreases r.len(),
{
    if r.len() <= 1 {
        0
    } else {
        stop_count(r.drop_last()) + if is_stop_edge(r, r.len() - 2) {
            1nat
        } else {
            0nat
        }
    }
}

/// Single finalize: in any legal run the stream terminator is invoked
/// exactly once when the session completes, and never twice — once
/// `Done` is reached the machine stays there and no further finalize
/// step exists.
pub proof fn lemma_single_finalize(r: Seq<Phase>)
    requires
        is_run(r),
    ensures
        finalize_count(r) == if r.last() == Phase::Done {
            1nat
        } else {
            0nat
        },
    decreases r.len(),
{
    if r.len() == 1 {
        assert(r.last() == Phase::Idle);
    } else {
        let rp = r.drop_last();
        assert(is_run(rp)) by {
            assert(rp[0] == r[0]);
            assert forall|i: int| 0 <= i < rp.len() - 1 implies phase_step(
                rp[i],
                #[trigger] rp[i + 1],
            ) by {
                assert(phase_step(r[i], r[i + 1]));
            }
        }
        lemma_single_finalize(rp);
        let n = r.len() as int;
        assert(phase_step(r[n - 2], r[(n - 2) + 1]));
        assert(rp.last() == r[n - 2]);
    }
}

/// Single stop: in any legal run the audio stream is stopped at most
/// once, a completed run has stopped it exactly once, and a run that has
/// not stopped it yet can still only be idle, capturing, or aborted
/// before capture ever began.
pub proof fn lemma_stream_stopped_once(r: Seq<Phase>)
    requires
        is_run(r),
    ensures
        stop_count(r) <= 1,
        stop_count(r) == 0 ==> (r.last() == Phase::Idle || r.last() == Phase::Capturing || r.last()
            == Phase::Aborted),
        stop_count(r) == 1 ==> (r.last() == Phase::Draining || r.last() == Phase::Done || r.last()
            == Phase::Aborted),
        r.last() == Phase::Done ==> stop_count(r) == 1,
    decreases r.len(),
{
    if r.len() == 1 {
        assert(r.last() == Phase::Idle);
    } else {
        let rp = r.drop_last();
        assert(is_run(rp)) by {
            assert(rp[0] == r[0]);
            assert forall|i: int| 0 <= i < rp.len() - 1 implies phase_step(
                rp[i],
                #[trigger] rp[i + 1],
            ) by {
                assert(phase_step(r[i], r[i + 1]));
            }
        }
        lemma_stream_stopped_once(rp);
        let n = r.len() as int;
        assert(phase_step(r[n - 2], r[(n - 2) + 1]));
        assert(rp.last() == r[n - 2]);
    }
}

/// One tick of a synthetic capture run: the batches the producer
/// delivered during the tick, and the signals the pump observes when it
/// next wakes.
pub struct Tick {
    /// Batches offered to the queue during this tick, in capture order.
    pub batches: Vec<Vec<i16>>,
    /// A cancel signal was pending when the pump woke.
    pub cancel: bool,
    /// The stream's error sink reported a lost device.
    pub device_lost: bool,
}

impl Tick {
    /// The tick's batches as sequences of samples.
    pub open spec fn batches_spec(self) -> Seq<Seq<i16>> {
        self.batches@.map(|i: int, b: Vec<i16>| b@)
    }
}

/// The sample views of a vector of batches.
pub open spec fn views_of(cs: Seq<Vec<i16>>) -> Seq<Seq<i16>> {
    cs.map(|i: int, c: Vec<i16>| c@)
}

/// Whether the pump, waking at `elapsed_ms` and observing the tick's
/// signals, stops capturing.
pub open spec fn tick_stops(t: Tick, elapsed_ms: int, duration_ms: int) -> bool {
    t.device_lost || t.cancel || elapsed_ms >= duration_ms
}

/// No tick before position `i` stops the pump.
pub open spec fn no_stop_before(ticks: Seq<Tick>, tick_ms: int, duration_ms: int, i: int) -> bool {
    forall|j: int| 0 <= j < i ==> !tick_stops(#[trigger] ticks[j], j * tick_ms, duration_ms)
}

/// Every sample the source produces over a run, in capture order.
pub open spec fn produced(ticks: Seq<Tick>) -> Seq<i16> {
    ticks.map(|i: int, t: Tick| t.batches_spec().flatten()).flatten()
}

/// No tick offers more batches at once than the queue can hold.
pub open spec fn within_capacity(ticks: Seq<Tick>, cap: nat) -> bool {
    forall|i: int| 0 <= i < ticks.len() ==> (#[trigger] ticks[i]).batches_spec().len() <= cap
}

/// Producing one more tick appends that tick's samples.
proof fn lemma_produced_take_step(ticks: Seq<Tick>, i: int)
    requires
        0 <= i < ticks.len(),
    ensures
        produced(ticks.take(i + 1)) == produced(ticks.take(i)) + ticks[i].batches_spec().flatten(),
{
    let f = |idx: int, t: Tick| t.batches_spec().flatten();
    assert(ticks.take(i + 1).map(f) =~= ticks.take(i).map(f).push(ticks[i].batches_spec().flatten()));
    ticks.take(i).map(f).lemma_flatten_push(ticks[i].batches_spec().flatten());
    assert(produced(ticks.take(i + 1)) =~= produced(ticks.take(i))
        + ticks[i].batches_spec().flatten());
}

/// A prefix of the run produces no more samples than the whole run.
proof fn lemma_produced_take_le(ticks: Seq<Tick>, i: int)
    requires
        0 <= i <= ticks.len(),
    ensures
        produced(ticks.take(i)).len() <= produced(ticks).len(),
{
    let f = |idx: int, t: Tick| t.batches_spec().flatten();
    let tp = ticks.take(i);
    let ts = ticks.skip(i);
    assert(ticks =~= tp + ts);
    assert(ticks.map(f) =~= tp.map(f) + ts.map(f));
    vstd::seq_lib::lemma_flatten_concat(tp.map(f), ts.map(f));
}

/// Outcome of a synthetic capture run.
pub struct RunReport {
    /// The terminal phase: `Done` or `Aborted`.
    pub phase: Phase,
    /// The fault, when the run aborted.
    pub error: Option<ErrorKind>,
    /// The chunks submitted towards the decoder, in order.
    pub chunks: Vec<Vec<i16>>,
    /// Batches dropped on queue overflow.
    pub dropped: u64,
    /// Whether the stream terminator was invoked.
    pub finalized: bool,
}

/// Runs a whole session over a synthetic capture script: each tick the
/// producer's batches are offered to the queue, then the pump wakes,
/// takes its decision for the elapsed time and observed signals, and
/// consumes the queue. A device loss aborts without finalizing; a
/// cancel, the timer, or the script's end drains and finalizes. An
/// uninterrupted run that stays within the queue capacity loses
/// nothing: the decoder receives exactly the produced samples, in the
/// produced order.
pub fn run_capture(
    ticks: &Vec<Tick>,
    tick_ms: u64,
    duration_ms: u64,
    queue_capacity: usize,
    chunk_size: usize,
) -> (r: RunReport)
    requires
        queue_capacity >= 1,
        chunk_size >= 1,
        ticks@.len() * tick_ms as int <= u64::MAX as int,
        produced(ticks@).len() <= usize::MAX as int,
    ensures
        r.phase == Phase::Done || r.phase == Phase::Aborted,
        r.finalized == (r.phase == Phase::Done),
        r.phase == Phase::Aborted <==> (exists|i: int|
            0 <= i < ticks@.len() && (#[trigger] ticks@[i]).device_lost && no_stop_before(
                ticks@,
                tick_ms as int,
                duration_ms as int,
                i,
            )),
        r.phase == Phase::Aborted ==> r.error == Some(ErrorKind::DeviceLost),
        r.phase == Phase::Done ==> r.error is None,
        (no_stop_before(ticks@, tick_ms as int, duration_ms as int, ticks@.len() as int)
            && within_capacity(ticks@, queue_capacity as nat)) ==> (r.dropped == 0
            && views_of(r.chunks@).flatten() == produced(ticks@)),
{
    broadcast use Seq::lemma_flatten_push;

    let ghost friendly = no_stop_before(ticks@, tick_ms as int, duration_ms as int,
        ticks@.len() as int) && within_capacity(ticks@, queue_capacity as nat);
    let mut session = Session::new();
    session.start();
    let mut queue = FrameQueue::new(queue_capacity);
    let mut driver = Driver::new(chunk_size);
    let mut chunks: Vec<Vec<i16>> = Vec::new();
    proof {
        assert(views_of(chunks@).flatten() =~= Seq::<i16>::empty());
        assert(produced(ticks@.take(0)).len() == 0) by {
            assert(ticks@.take(0).map(|idx: int, t: Tick| t.batches_spec().flatten()) =~= Seq::<
                Seq<i16>,
            >::empty());
        }
        assert(produced(ticks@.take(0)) =~= Seq::<i16>::empty());
    }
    let mut i: usize = 0;
    let mut stopped = false;
    let mut lost = false;
    let ghost mut stop_i: int = 0;
    while !stopped && i < ticks.len()
        invariant
            queue.wf(),
            driver.wf(),
            !driver.is_finalized(),
            session.phase_spec() == Phase::Capturing,
            session.error_spec() is None,
            queue.cap() == queue_capacity as nat,
            queue_capacity >= 1,
            i <= ticks@.len(),
            ticks@.len() * tick_ms as int <= u64::MAX as int,
            produced(ticks@).len() <= usize::MAX as int,
            driver.emitted_spec() == views_of(chunks@).flatten(),
            driver.accepted_spec().len() + queue.batches().flatten().len() <= produced(
                ticks@.take(i as int),
            ).len(),
            !stopped ==> queue.batches().len() == 0,
            !stopped ==> no_stop_before(ticks@, tick_ms as int, duration_ms as int, i as int),
            stopped ==> 0 <= stop_i < ticks@.len() && no_stop_before(ticks@, tick_ms as int,
                duration_ms as int, stop_i) && tick_stops(ticks@[stop_i], stop_i * tick_ms as int,
                duration_ms as int) && lost == ticks@[stop_i].device_lost,
            friendly == (no_stop_before(ticks@, tick_ms as int, duration_ms as int,
                ticks@.len() as int) && within_capacity(ticks@, queue_capacity as nat)),
            friendly ==> !stopped,
            friendly ==> (queue.dropped_spec() == 0 && driver.accepted_spec() == produced(
                ticks@.take(i as int),
            )),
        decreases ticks@.len() - i + if stopped {
            0int
        } else {
            1int
        },
    {
        proof {
            assert((i as int) * (tick_ms as int) <= (ticks@.len() as int) * (tick_ms as int))
                by (nonlinear_arith)
                requires
                    0 <= i as int <= ticks@.len() as int,
                    tick_ms as int >= 0,
            ;
        }
        let elapsed: u64 = (i as u64) * tick_ms;
        let d = capture_decision(elapsed, duration_ms, ticks[i].cancel, ticks[i].device_lost,
            false);
        match d {
            Decision::Continue => {
                proof {
                    lemma_produced_take_step(ticks@, i as int);
                    lemma_produced_take_le(ticks@, i as int + 1);
                }
                let ghost tick_batches = ticks@[i as int].batches_spec();
                let ghost pre_accepted = driver.accepted_spec();
                let mut b: usize = 0;
                while b < ticks[i].batches.len()
                    invariant
                        queue.wf(),
                        queue.cap() == queue_capacity as nat,
                        queue_capacity >= 1,
                        i < ticks@.len(),
                        b <= tick_batches.len(),
                        tick_batches == ticks@[i as int].batches_spec(),
                        driver.accepted_spec() == pre_accepted,
                        driver.accepted_spec().len() + queue.batches().flatten().len() <= produced(
                            ticks@.take(i as int),
                        ).len() + tick_batches.take(b as int).flatten().len(),
                        friendly == (no_stop_before(ticks@, tick_ms as int, duration_ms as int,
                            ticks@.len() as int) && within_capacity(ticks@,
                            queue_capacity as nat)),
                        friendly ==> (queue.dropped_spec() == 0 && queue.batches()
                            == tick_batches.take(b as int) && driver.accepted_spec() == produced(
                            ticks@.take(i as int),
                        )),
                    decreases ticks@[i as int].batches_spec().len() - b,
                {
                    let batch = ticks[i].batches[b].clone();
                    proof {
                        assert(batch@ =~= tick_batches[b as int]);
                        tick_batches.take(b as int).lemma_flatten_push(tick_batches[b as int]);
                        assert(tick_batches.take(b as int + 1) =~= tick_batches.take(
                            b as int,
                        ).push(tick_batches[b as int]));
                    }
                    if queue.dropped_count() < u64::MAX {
                        let ghost pre_queue = queue.batches();
                        let _ = queue.try_push(batch);
                        proof {
                            if pre_queue.len() < queue.cap() {
                                assert(queue.batches() == pre_queue.push(batch@));
                                pre_queue.lemma_flatten_push(batch@);
                                assert(queue.batches().flatten() == pre_queue.flatten()
                                    + batch@);
                            } else {
                                assert(queue.batches() == pre_queue);
                            }
                            if friendly {
                                assert(within_capacity(ticks@, queue_capacity as nat));
                                assert(ticks@[i as int].batches_spec().len()
                                    <= queue_capacity as nat);
                                assert(pre_queue.len() < queue_capacity as nat);
                            }
                        }
                    }
                    b = b + 1;
                }
                proof {
                    assert(tick_batches.take(tick_batches.len() as int) =~= tick_batches);
                }
                let mut fresh = pump_available(&mut queue, &mut driver);
                let ghost pre_views = views_of(chunks@);
                let ghost fresh_views = fresh@.map(|idx: int, c: Vec<i16>| c@);
                chunks.append(&mut fresh);
                proof {
                    assert(views_of(chunks@) =~= pre_views + fresh_views);
                    vstd::seq_lib::lemma_flatten_concat(pre_views, fresh_views);
                    assert(driver.emitted_spec() =~= views_of(chunks@).flatten());
                    if friendly {
                        assert(driver.accepted_spec() =~= produced(ticks@.take(i as int + 1)));
                    }
                }
                i = i + 1;
            },
            Decision::Drain => {
                stopped = true;
                lost = false;
                proof {
                    stop_i = i as int;
                    assert(elapsed as int == (i as int) * (tick_ms as int));
                    assert(!ticks@[i as int].device_lost);
                    assert(tick_stops(ticks@[i as int], (i as int) * (tick_ms as int),
                        duration_ms as int));
                    if friendly {
                        assert(!tick_stops(ticks@[i as int], (i as int) * (tick_ms as int),
                            duration_ms as int));
                        assert(false);
                    }
                }
            },
            Decision::Abort(_kind) => {
                stopped = true;
                lost = true;
                proof {
                    stop_i = i as int;
                    assert(elapsed as int == (i as int) * (tick_ms as int));
                    assert(ticks@[i as int].device_lost);
                    assert(tick_stops(ticks@[i as int], (i as int) * (tick_ms as int),
                        duration_ms as int));
                    if friendly {
                        assert(false);
                    }
                }
            },
        }
    }
    proof {
        lemma_produced_take_le(ticks@, i as int);
        if !stopped {
            assert(ticks@.take(ticks@.len() as int) =~= ticks@);
        }
    }
    if stopped && lost {
        session.abort(ErrorKind::DeviceLost);
        RunReport {
            phase: session.phase(),
            error: session.error(),
            chunks,
            dropped: queue.dropped_count(),
            finalized: driver.finalized(),
        }
    } else {
        session.begin_drain();
        let mut fresh = drain_and_finalize(&mut queue, &mut driver, false);
        let ghost pre_views = views_of(chunks@);
        let ghost fresh_views = fresh@.map(|idx: int, c: Vec<i16>| c@);
        chunks.append(&mut fresh);
        proof {
            assert(views_of(chunks@) =~= pre_views + fresh_views);
            vstd::seq_lib::lemma_flatten_concat(pre_views, fresh_views);
            assert(driver.emitted_spec() =~= views_of(chunks@).flatten());
        }
        session.complete();
        RunReport {
            phase: session.phase(),
            error: session.error(),
            chunks,
            dropped: queue.dropped_count(),
            finalized: driver.finalized(),
        }
    }
}

/// The session phase machine, as the shell drives it.
pub struct Session {
    phase: Phase,
    error: Option<ErrorKind>,
    cancelled_partial: bool,
}

impl Session {
    /// The current lifecycle phase.
    pub closed spec fn phase_spec(self) -> Phase {
        self.phase
    }

    /// The fault the session aborted with, if any.
    pub closed spec fn error_spec(self) -> Option<ErrorKind> {
        self.error
    }

    /// Whether a cancel during draining skipped the queue tail.
    pub closed spec fn cancelled_partial_spec(self) -> bool {
        self.cancelled_partial
    }

    /// A fresh, idle session.
    pub fn new() -> (s: Session)
        ensures
            s.phase_spec() == Phase::Idle,
            s.error_spec() is None,
            !s.cancelled_partial_spec(),
    {
        Session { phase: Phase::Idle, error: None, cancelled_partial: false }
    }

    /// Initialization succeeded and the stream is running.
    pub fn start(&mut self)
        requires
            old(self).phase_spec() == Phase::Idle,
        ensures
            phase_step(old(self).phase_spec(), final(self).phase_spec()),
            final(self).phase_spec() == Phase::Capturing,
            final(self).error_spec() == old(self).error_spec(),
            final(self).cancelled_partial_spec() == old(self).cancelled_partial_spec(),
    {
        self.phase = Phase::Capturing;
    }

    /// The capture loop decided to stop the producer and drain.
    pub fn begin_drain(&mut self)
        requires
            old(self).phase_spec() == Phase::Capturing,
        ensures
            phase_step(old(self).phase_spec(), final(self).phase_spec()),
            final(self).phase_spec() == Phase::Draining,
            final(self).error_spec() == old(self).error_spec(),
            final(self).cancelled_partial_spec() == old(self).cancelled_partial_spec(),
    {
        self.phase = Phase::Draining;
    }

    /// A cancel observed while draining: the queue tail will be skipped
    /// and the transcript marked as cancelled-partial.
    pub fn cancel_drain(&mut self)
        requires
            old(self).phase_spec() == Phase::Draining,
        ensures
            final(self).phase_spec() == Phase::Draining,
            final(self).error_spec() == old(self).error_spec(),
            final(self).cancelled_partial_spec(),
    {
        self.cancelled_partial = true;
    }

    /// The drain finished and the driver was finalized: the session is
    /// complete.
    pub fn complete(&mut self)
        requires
            old(self).phase_spec() == Phase::Draining,
        ensures
            phase_step(old(self).phase_spec(), final(self).phase_spec()),
            final(self).phase_spec() == Phase::Done,
            final(self).error_spec() == old(self).error_spec(),
            final(self).cancelled_partial_spec() == old(self).cancelled_partial_spec(),
    {
        self.phase = Phase::Done;
    }

    /// A fatal fault: the session aborts and records its kind. Terminal
    /// phases cannot abort — the fault of a session is the first fatal
    /// fault observed.
    pub fn abort(&mut self, kind: ErrorKind)
        requires
            old(self).phase_spec() == Phase::Idle || old(self).phase_spec() == Phase::Capturing
                || old(self).phase_spec() == Phase::Draining,
        ensures
            phase_step(old(self).phase_spec(), final(self).phase_spec()),
            final(self).phase_spec() == Phase::Aborted,
            final(self).error_spec() == Some(kind),
            final(self).cancelled_partial_spec() == old(self).cancelled_partial_spec(),
    {
        self.phase = Phase::Aborted;
        self.error = Some(kind);
    }

    /// The current phase, for the shell's loop.
    pub fn phase(&self) -> (p: Phase)
        ensures
            p == self.phase_spec(),
    {
        self.phase
    }

    /// The recorded fault, if the session aborted.
    pub fn error(&self) -> (e: Option<ErrorKind>)
        ensures
            e == self.error_spec(),
    {
        self.error
    }

    /// Whether the drain was cut short by a cancel.
    pub fn cancelled_partial(&self) -> (b: bool)
        ensures
            b == self.cancelled_partial_spec(),
    {
        self.cancelled_partial
    }
}

} // verus!
