//! Recognizer driver: buffers incoming PCM and decides when a chunk is
//! handed to the speech decoder.
//!
//! The decoder itself is an external collaborator owned by the shell; the
//! driver's job is the chunking policy, the consecutive-failure policy,
//! and the sample accounting: everything accepted is eventually emitted,
//! in order, and the stream terminator fires exactly once. The ghost
//! sequences `accepted` and `emitted` record the samples that crossed
//! each boundary, so those guarantees are stated and proved exactly.

use vstd::prelude::*;

verus! {

/// How many consecutive chunk failures the session tolerates before the
/// driver asks for an abort with a decoder-unstable fault.
pub const MAX_STRIKES: u8 = 3;

/// Chunking and failure policy in front of the speech decoder.
pub struct Driver {
    pending: Vec<i16>,
    chunk_size: usize,
    strikes: u8,
    finalized: bool,
    accepted: Ghost<Seq<i16>>,
    emitted: Ghost<Seq<i16>>,
}

impl Driver {
    /// Samples buffered but not yet emitted as a chunk.
    pub closed spec fn pending_spec(self) -> Seq<i16> {
        self.pending@
    }

    /// Every sample the driver has accepted from the queue, in order.
    pub closed spec fn accepted_spec(self) -> Seq<i16> {
        self.accepted@
    }

    /// Every sample emitted towards the decoder so far, in order.
    pub closed spec fn emitted_spec(self) -> Seq<i16> {
        self.emitted@
    }

    /// The chunk threshold the driver was created with.
    pub closed spec fn chunk_size_spec(self) -> nat {
        self.chunk_size as nat
    }

    /// Consecutive chunk failures seen since the last success.
    pub closed spec fn strikes_spec(self) -> nat {
        self.strikes as nat
    }

    /// Whether the stream terminator has been invoked.
    pub closed spec fn is_finalized(self) -> bool {
        self.finalized
    }

    /// Conservation and ordering invariant: what went towards the decoder
    /// followed by what is still buffered is exactly what was accepted —
    /// no sample is lost, duplicated or reordered inside the driver; and
    /// after finalization nothing is left buffered.
    pub open spec fn wf(self) -> bool {
        &&& self.emitted_spec() + self.pending_spec() == self.accepted_spec()
        &&& self.chunk_size_spec() >= 1
        &&& self.strikes_spec() < MAX_STRIKES as nat
        &&& (self.is_finalized() ==> self.pending_spec().len() == 0)
    }

    /// Creates a driver that emits a chunk whenever at least `chunk_size`
    /// samples have accumulated.
    pub fn new(chunk_size: usize) -> (d: Driver)
        requires
            chunk_size >= 1,
        ensures
            d.wf(),
            !d.is_finalized(),
            d.pending_spec() == Seq::<i16>::empty(),
            d.accepted_spec() == Seq::<i16>::empty(),
            d.emitted_spec() == Seq::<i16>::empty(),
            d.chunk_size_spec() == chunk_size as nat,
            d.strikes_spec() == 0,
    {
        Driver {
            pending: Vec::new(),
            chunk_size,
            strikes: 0,
            finalized: false,
            accepted: Ghost(Seq::empty()),
            emitted: Ghost(Seq::empty()),
        }
    }

    /// Accepts one batch. When the buffer reaches the chunk threshold the
    /// whole buffer is returned for submission to the decoder, oldest
    /// sample first; otherwise the batch is only buffered. Either way the
    /// accepted samples keep their order.
    pub fn accept(&mut self, batch: &Vec<i16>) -> (chunk: Option<Vec<i16>>)
        requires
            old(self).wf(),
            !old(self).is_finalized(),
            old(self).pending_spec().len() + batch@.len() <= usize::MAX,
        ensures
            final(self).wf(),
            !final(self).is_finalized(),
            final(self).chunk_size_spec() == old(self).chunk_size_spec(),
            final(self).strikes_spec() == old(self).strikes_spec(),
            final(self).accepted_spec() == old(self).accepted_spec() + batch@,
            match chunk {
                Some(c) => {
                    &&& old(self).pending_spec().len() + batch@.len() >= old(
                        self,
                    ).chunk_size_spec()
                    &&& c@ == old(self).pending_spec() + batch@
                    &&& final(self).pending_spec().len() == 0
                    &&& final(self).emitted_spec() == old(self).emitted_spec() + c@
                },
                None => {
                    &&& old(self).pending_spec().len() + batch@.len() < old(
                        self,
                    ).chunk_size_spec()
                    &&& final(self).pending_spec() == old(self).pending_spec() + batch@
                    &&& final(self).emitted_spec() == old(self).emitted_spec()
                },
            },
    {
        let ghost pre = *self;
        let ghost pre_pending = self.pending@;
        let mut idx: usize = 0;
        while idx < batch.len()
            invariant
                idx <= batch@.len(),
                pre_pending.len() + batch@.len() <= usize::MAX,
                self.pending@ == pre_pending + batch@.subrange(0, idx as int),
                self.emitted == pre.emitted,
                self.accepted == pre.accepted,
                self.chunk_size == pre.chunk_size,
                self.strikes == pre.strikes,
                self.finalized == pre.finalized,
            decreases batch@.len() - idx,
        {
            self.pending.push(batch[idx]);
            proof {
                assert(pre_pending + batch@.subrange(0, idx as int + 1) =~= (pre_pending
                    + batch@.subrange(0, idx as int)).push(batch@[idx as int]));
            }
            idx = idx + 1;
        }
        proof {
            assert(batch@.subrange(0, batch@.len() as int) =~= batch@);
        }
        self.accepted = Ghost(self.accepted@ + batch@);
        if self.pending.len() >= self.chunk_size {
            let mut chunk: Vec<i16> = Vec::new();
            core::mem::swap(&mut chunk, &mut self.pending);
            self.emitted = Ghost(self.emitted@ + chunk@);
            proof {
                assert(self.emitted@ + self.pending@ =~= self.accepted@);
            }
            Some(chunk)
        } else {
            proof {
                assert(self.emitted@ + self.pending@ =~= self.accepted@);
            }
            None
        }
    }

    /// Records the decoder's verdict on the chunk just submitted. A
    /// success clears the strike count; a transient failure is tolerated,
    /// but the call asks for an abort on the third consecutive failure,
    /// and only then.
    pub fn note_feed_outcome(&mut self, ok: bool) -> (abort: bool)
        requires
            old(self).wf(),
        ensures
            final(self).wf(),
            final(self).pending_spec() == old(self).pending_spec(),
            final(self).accepted_spec() == old(self).accepted_spec(),
            final(self).emitted_spec() == old(self).emitted_spec(),
            final(self).chunk_size_spec() == old(self).chunk_size_spec(),
            final(self).is_finalized() == old(self).is_finalized(),
            abort <==> (!ok && old(self).strikes_spec() + 1 == MAX_STRIKES as nat),
            ok ==> final(self).strikes_spec() == 0,
            !ok && !abort ==> final(self).strikes_spec() == old(self).strikes_spec() + 1,
            abort ==> final(self).strikes_spec() == 0,
    {
        if ok {
            self.strikes = 0;
            false
        } else if self.strikes + 1 == MAX_STRIKES {
            self.strikes = 0;
            true
        } else {
            self.strikes = self.strikes + 1;
            false
        }
    }

    /// Terminates the stream: hands back whatever is still buffered as
    /// the last chunk and marks the driver finalized. Callable exactly
    /// once — afterwards every accepted sample has been emitted, in
    /// order, and nothing more can be accepted.
    pub fn finalize(&mut self) -> (tail: Vec<i16>)
        requires
            old(self).wf(),
            !old(self).is_finalized(),
        ensures
            final(self).wf(),
            final(self).is_finalized(),
            tail@ == old(self).pending_spec(),
            final(self).emitted_spec() == old(self).emitted_spec() + tail@,
            final(self).accepted_spec() == old(self).accepted_spec(),
            final(self).emitted_spec() == final(self).accepted_spec(),
    {
        let mut tail: Vec<i16> = Vec::new();
        core::mem::swap(&mut tail, &mut self.pending);
        self.emitted = Ghost(self.emitted@ + tail@);
        self.finalized = true;
        tail
    }

    /// Number of samples currently buffered.
    pub fn pending_len(&self) -> (n: usize)
        ensures
            n as nat == self.pending_spec().len(),
    {
        self.pending.len()
    }

    /// Whether the stream terminator has already been invoked.
    pub fn finalized(&self) -> (b: bool)
        ensures
            b == self.is_finalized(),
    {
        self.finalized
    }
}

} // verus!
