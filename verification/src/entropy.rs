//! Random samples as plain values.
//!
//! The host's random source hands the library uniform [0,1) samples scaled
//! to parts per million.  `LiveRandom` is the injected stand-in for drawing
//! from that source on demand: a non-empty sequence of pre-drawn samples,
//! consumed cyclically.  `EntropyPool` is the pool cached at load time and
//! re-read by the rain overlay, indexed modulo its length.

use vstd::prelude::*;

verus! {

/// The precomputed pool of uniform samples, one per grid cell at the time
/// of the most recent load, indexed cyclically afterwards.
pub struct EntropyPool {
    pub samples: Vec<u32>,
}

impl EntropyPool {
    /// Every sample lies in [0, 1).
    pub open spec fn wf(self) -> bool {
        forall|i: int| 0 <= i < self.samples@.len() ==> #[trigger] self.samples@[i] < 1000000
    }
}

/// The live random source: pre-drawn uniform samples handed over by the
/// host, consumed one at a time, cyclically.
pub struct LiveRandom {
    pub samples: Vec<u32>,
    pub next: usize,
}

impl LiveRandom {
    /// At least one sample, the cursor inside it, every sample in [0, 1).
    pub open spec fn wf(self) -> bool {
        &&& self.samples@.len() >= 1
        &&& self.next < self.samples@.len()
        &&& forall|i: int| 0 <= i < self.samples@.len() ==> #[trigger] self.samples@[i] < 1000000
    }

    /// Wraps a non-empty sequence of samples in [0, 1) into a source whose
    /// cursor starts at the front; anything else is rejected.
    pub fn new(samples: Vec<u32>) -> (r: Option<LiveRandom>)
        ensures
            r is Some <==> (samples@.len() >= 1 && forall|i: int|
                0 <= i < samples@.len() ==> #[trigger] samples@[i] < 1000000),
            r is Some ==> r.unwrap() == (LiveRandom { samples: samples, next: 0usize }),
            r is Some ==> r.unwrap().wf(),
    {
        if samples.len() == 0 {
            return None;
        }
        let mut i: usize = 0;
        while i < samples.len()
            invariant
                i <= samples@.len(),
                forall|j: int| 0 <= j < i ==> #[trigger] samples@[j] < 1000000,
            decreases samples@.len() - i,
        {
            if samples[i] >= 1000000 {
                return None;
            }
            i = i + 1;
        }
        Some(LiveRandom { samples, next: 0 })
    }

    /// Draws the next sample and advances the cursor cyclically.
    pub fn draw(&mut self) -> (s: u32)
        requires
            old(self).wf(),
        ensures
            final(self).wf(),
            final(self).samples == old(self).samples,
            s == old(self).samples@[old(self).next as int],
            s < 1000000,
            final(self).next == (old(self).next + 1) as int % old(self).samples@.len() as int,
    {
        let s = self.samples[self.next];
        assert(self.next < self.samples.len());
        self.next = (self.next + 1) % self.samples.len();
        s
    }
}

} // verus!
