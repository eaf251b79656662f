//! Bounded single-producer / single-consumer frame queue.
//!
//! The queue is the only state shared between the realtime capture
//! callback and the consumer; the shell guards one instance with a
//! try-lock so the callback never blocks. On overflow the incoming batch
//! is dropped and counted rather than blocking the producer: freshness is
//! preferred over completeness, and the drop count is surfaced in the
//! session metadata.

use vstd::prelude::*;

verus! {

/// What `try_push` did with the offered batch.
#[derive(Clone, Copy, PartialEq, Eq, Structural, Debug)]
pub enum PushOutcome {
    /// The batch was enqueued at the tail.
    Accepted,
    /// The queue was full; the batch was dropped and counted.
    FullDropped,
}

/// Bounded FIFO of PCM batches with a dropped-batch counter.
pub struct FrameQueue {
    items: Vec<Vec<i16>>,
    capacity: usize,
    dropped: u64,
}

/// The queue contents after offering one batch: appended when there is
/// room, unchanged when the queue is full.
pub open spec fn offer_model(contents: Seq<Seq<i16>>, cap: nat, b: Seq<i16>) -> Seq<Seq<i16>> {
    if contents.len() < cap {
        contents.push(b)
    } else {
        contents
    }
}

/// The queue contents after offering a whole sequence of batches in order.
pub open spec fn offer_all_model(contents: Seq<Seq<i16>>, cap: nat, bs: Seq<Seq<i16>>) -> Seq<
    Seq<i16>,
>
    decreases bs.len(),
{
    if bs.len() == 0 {
        contents
    } else {
        offer_all_model(offer_model(contents, cap, bs[0]), cap, bs.subrange(1, bs.len() as int))
    }
}

impl FrameQueue {
    /// The batches currently held, oldest first.
    pub closed spec fn batches(self) -> Seq<Seq<i16>> {
        self.items@.map(|i: int, b: Vec<i16>| b@)
    }

    /// The capacity the queue was created with.
    pub closed spec fn cap(self) -> nat {
        self.capacity as nat
    }

    /// How many offered batches have been dropped on overflow so far.
    pub closed spec fn dropped_spec(self) -> nat {
        self.dropped as nat
    }

    /// The queue never holds more than its capacity.
    pub open spec fn wf(self) -> bool {
        &&& self.batches().len() <= self.cap()
        &&& self.cap() >= 1
    }

    /// Creates an empty queue bounded by `capacity` batches.
    pub fn new(capacity: usize) -> (q: FrameQueue)
        requires
            capacity >= 1,
        ensures
            q.wf(),
            q.batches() == Seq::<Seq<i16>>::empty(),
            q.cap() == capacity as nat,
            q.dropped_spec() == 0,
    {
        let q = FrameQueue { items: Vec::new(), capacity, dropped: 0 };
        proof {
            assert(q.batches() =~= Seq::<Seq<i16>>::empty());
        }
        q
    }

    /// Number of batches currently queued.
    pub fn len(&self) -> (n: usize)
        ensures
            n as nat == self.batches().len(),
    {
        self.items.len()
    }

    /// The configured capacity.
    pub fn capacity(&self) -> (n: usize)
        ensures
            n as nat == self.cap(),
    {
        self.capacity
    }

    /// How many batches were dropped on overflow.
    pub fn dropped_count(&self) -> (n: u64)
        ensures
            n as nat == self.dropped_spec(),
    {
        self.dropped
    }

    /// Producer side: enqueues the batch when there is room, otherwise
    /// drops it and counts the drop. Never blocks, never reorders: an
    /// accepted batch goes behind everything accepted earlier.
    pub fn try_push(&mut self, batch: Vec<i16>) -> (o: PushOutcome)
        requires
            old(self).wf(),
            old(self).dropped_spec() < u64::MAX,
        ensures
            final(self).wf(),
            final(self).cap() == old(self).cap(),
            final(self).batches() == offer_model(old(self).batches(), old(self).cap(), batch@),
            o == PushOutcome::Accepted <==> old(self).batches().len() < old(self).cap(),
            o == PushOutcome::Accepted ==> final(self).dropped_spec() == old(self).dropped_spec(),
            o == PushOutcome::FullDropped ==> final(self).dropped_spec() == old(
                self,
            ).dropped_spec() + 1,
    {
        if self.items.len() < self.capacity {
            let ghost pre = self.items@;
            self.items.push(batch);
            proof {
                assert(self.batches() =~= pre.map(|i: int, b: Vec<i16>| b@).push(batch@));
            }
            PushOutcome::Accepted
        } else {
            self.dropped = self.dropped + 1;
            PushOutcome::FullDropped
        }
    }

    /// Consumer side: removes and returns the oldest batch, or `None`
    /// when the queue is empty. Never blocks.
    pub fn try_pop(&mut self) -> (r: Option<Vec<i16>>)
        requires
            old(self).wf(),
        ensures
            final(self).wf(),
            final(self).cap() == old(self).cap(),
            final(self).dropped_spec() == old(self).dropped_spec(),
            old(self).batches().len() == 0 ==> r is None && final(self).batches() == old(
                self,
            ).batches(),
            old(self).batches().len() > 0 ==> (match r {
                Some(b) => b@ == old(self).batches()[0] && final(self).batches() == old(
                    self,
                ).batches().subrange(1, old(self).batches().len() as int),
                None => false,
            }),
    {
        if self.items.len() == 0 {
            None
        } else {
            let ghost pre = self.items@;
            let b = self.items.remove(0);
            proof {
                assert(self.batches() =~= pre.map(|i: int, b: Vec<i16>| b@).subrange(
                    1,
                    pre.len() as int,
                ));
            }
            Some(b)
        }
    }

    /// End of session: hands back everything still queued, oldest first,
    /// leaving the queue empty. Together with `try_push` this guarantees
    /// that every batch the producer successfully pushed before the stop
    /// is delivered to the consumer.
    pub fn drain_remaining(&mut self) -> (r: Vec<Vec<i16>>)
        requires
            old(self).wf(),
        ensures
            final(self).wf(),
            final(self).cap() == old(self).cap(),
            final(self).dropped_spec() == old(self).dropped_spec(),
            final(self).batches().len() == 0,
            r@.map(|i: int, b: Vec<i16>| b@) == old(self).batches(),
    {
        let mut r: Vec<Vec<i16>> = Vec::new();
        core::mem::swap(&mut r, &mut self.items);
        proof {
            assert(self.batches() =~= Seq::<Seq<i16>>::empty());
        }
        r
    }
}

/// No loss without overflow: a source that never outruns the capacity
/// (at most `cap` batches pending at any time; here, offered into an
/// empty queue in one burst of at most `cap` batches) has every batch
/// accepted, in order — the consumer side sees exactly the produced
/// sequence.
pub proof fn lemma_no_loss_without_overflow(cap: nat, bs: Seq<Seq<i16>>)
    requires
        bs.len() <= cap,
    ensures
        offer_all_model(Seq::<Seq<i16>>::empty(), cap, bs) == bs,
{
    lemma_offer_all_when_room(Seq::<Seq<i16>>::empty(), cap, bs);
    assert(offer_all_model(Seq::<Seq<i16>>::empty(), cap, bs) =~= bs);
}

/// End-to-end ordering without overflow: when a burst of at most `cap`
/// batches goes through the queue, the samples on the consumer side are
/// exactly the produced samples, in the produced order — sample for
/// sample, not merely in count.
pub proof fn lemma_pipeline_preserves_samples(cap: nat, bs: Seq<Seq<i16>>)
    requires
        bs.len() <= cap,
    ensures
        offer_all_model(Seq::<Seq<i16>>::empty(), cap, bs).flatten() == bs.flatten(),
{
    lemma_no_loss_without_overflow(cap, bs);
}

/// Offering batches while there is room appends them in order: FIFO
/// order of successful pushes is preserved and nothing is dropped.
pub proof fn lemma_offer_all_when_room(contents: Seq<Seq<i16>>, cap: nat, bs: Seq<Seq<i16>>)
    requires
        contents.len() + bs.len() <= cap,
    ensures
        offer_all_model(contents, cap, bs) == contents + bs,
    decreases bs.len(),
{
    if bs.len() == 0 {
        assert(offer_all_model(contents, cap, bs) =~= contents + bs);
    } else {
        lemma_offer_all_when_room(contents.push(bs[0]), cap, bs.subrange(1, bs.len() as int));
        assert(contents.push(bs[0]) + bs.subrange(1, bs.len() as int) =~= contents + bs);
    }
}

} // verus!
