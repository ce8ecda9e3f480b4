//! First-in first-out sample buffer with a bound on latency.
use vstd::prelude::*;

use crate::chunk::{StereoChunk, CHUNK, FRAME_SIZE};

verus! {

/// Consumed samples that may stay in front of a buffer before it is compacted.
pub const REMAINDER_CAP: usize = 16384;

/// Frames that may wait unprocessed; beyond them the oldest are dropped.
pub const MAX_BUFFER_FRAMES: usize = 8;

/// Samples waiting to be processed or played, oldest first.
pub struct AudioBuf<T> {
    data: Vec<T>,
    pos: usize,
}

/// How many of `waiting` samples are dropped to bound latency: the largest multiple of a frame
/// that keeps at least [`MAX_BUFFER_FRAMES`] frames.
pub open spec fn excess_samples(waiting: nat) -> nat {
    if waiting <= MAX_BUFFER_FRAMES * FRAME_SIZE {
        0
    } else {
        let excess = (waiting - MAX_BUFFER_FRAMES * FRAME_SIZE) as nat;
        (excess - excess % (FRAME_SIZE as nat)) as nat
    }
}

impl<T> View for AudioBuf<T> {
    type V = Seq<T>;

    /// The waiting samples, oldest first.
    closed spec fn view(&self) -> Seq<T> {
        self.data@.skip(self.pos as int)
    }
}

impl<T> AudioBuf<T> {
    /// The read position lies inside the stored samples, and no more than [`REMAINDER_CAP`]
    /// consumed samples are kept.
    pub closed spec fn wf(&self) -> bool {
        &&& self.pos <= self.data@.len()
        &&& self.pos <= REMAINDER_CAP
    }

    /// An empty buffer.
    pub fn new() -> (buf: Self)
        ensures
            buf.wf(),
            buf@ == Seq::<T>::empty(),
    {
        let buf = AudioBuf { data: Vec::new(), pos: 0 };
        assert(buf@ =~= Seq::<T>::empty());
        buf
    }

    /// How many samples are waiting.
    pub fn len(&self) -> (n: usize)
        requires
            self.wf(),
        ensures
            n == self@.len(),
    {
        self.data.len() - self.pos
    }

    /// Whether no sample is waiting.
    pub fn is_empty(&self) -> (b: bool)
        requires
            self.wf(),
        ensures
            b == (self@.len() == 0),
    {
        self.len() == 0
    }

    /// Forgets every waiting sample.
    pub fn clear(&mut self)
        ensures
            final(self).wf(),
            final(self)@ == Seq::<T>::empty(),
    {
        self.data.clear();
        self.pos = 0;
        assert(self@ =~= Seq::<T>::empty());
    }

    /// Skips `n` waiting samples, and compacts the storage once enough of it was consumed.
    fn advance(&mut self, n: usize)
        requires
            old(self).wf(),
            n <= old(self)@.len(),
        ensures
            final(self).wf(),
            final(self)@ == old(self)@.skip(n as int),
    {
        let ghost before = self@;
        assert(self.data@.len() == self.data.len());
        self.pos = self.pos + n;
        if self.pos > REMAINDER_CAP {
            let rest = self.data.split_off(self.pos);
            self.data = rest;
            self.pos = 0;
        }
        assert(self@ =~= before.skip(n as int));
    }

    /// Drops the oldest whole frames while more than [`MAX_BUFFER_FRAMES`] are waiting, and
    /// returns how many samples were dropped.
    pub fn drop_excess(&mut self) -> (dropped: usize)
        requires
            old(self).wf(),
        ensures
            final(self).wf(),
            dropped == excess_samples(old(self)@.len()),
            dropped % FRAME_SIZE == 0,
            final(self)@ == old(self)@.skip(dropped as int),
            final(self)@.len() < (MAX_BUFFER_FRAMES + 1) * FRAME_SIZE,
    {
        let max_samples: usize = MAX_BUFFER_FRAMES * FRAME_SIZE;
        let excess: usize = self.len().saturating_sub(max_samples);
        let drop_samples: usize = (excess / FRAME_SIZE) * FRAME_SIZE;
        assert(drop_samples == excess_samples(self@.len()));
        if drop_samples > 0 {
            self.advance(drop_samples);
        } else {
            assert(self@ =~= self@.skip(0));
        }
        drop_samples
    }
}

impl<T: Copy> AudioBuf<T> {
    /// Appends `samples`.
    pub fn extend(&mut self, samples: &[T])
        requires
            old(self).wf(),
        ensures
            final(self).wf(),
            final(self)@ == old(self)@ + samples@,
    {
        let ghost before = self@;
        let mut i: usize = 0;
        while i < samples.len()
            invariant
                i <= samples@.len(),
                self.wf(),
                self@ == before + samples@.take(i as int),
            decreases samples@.len() - i,
        {
            self.push(samples[i]);
            i += 1;
            assert(self@ =~= before + samples@.take(i as int));
        }
        assert(samples@.take(i as int) =~= samples@);
    }

    /// Appends one sample.
    pub fn push(&mut self, sample: T)
        requires
            old(self).wf(),
        ensures
            final(self).wf(),
            final(self)@ == old(self)@.push(sample),
    {
        let ghost before = self@;
        self.data.push(sample);
        assert(self@ =~= before.push(sample));
    }

    /// Appends the interleaved samples of a chunk.
    pub fn push_chunk(&mut self, chunk: &StereoChunk<T>)
        requires
            old(self).wf(),
        ensures
            final(self).wf(),
            final(self)@ == old(self)@ + chunk.frame(),
    {
        let ghost before = self@;
        let mut i: usize = 0;
        while i < CHUNK
            invariant
                i <= CHUNK,
                self.wf(),
                self@ == before + chunk.frame().take(2 * i),
            decreases CHUNK - i,
        {
            self.push(chunk.left[i]);
            self.push(chunk.right[i]);
            i += 1;
            assert(self@ =~= before + chunk.frame().take(2 * i));
        }
        assert(chunk.frame().take(2 * i) =~= chunk.frame());
    }

    /// Copies out the first `n` waiting samples.
    fn head(&self, n: usize) -> (samples: Vec<T>)
        requires
            self.wf(),
            n <= self@.len(),
        ensures
            samples@ == self@.take(n as int),
    {
        let mut samples: Vec<T> = Vec::with_capacity(n);
        let mut i: usize = 0;
        while i < n
            invariant
                i <= n <= self@.len(),
                self.wf(),
                samples@ == self@.take(i as int),
            decreases n - i,
        {
            assert(self.data@.len() == self.data.len());
            samples.push(self.data[self.pos + i]);
            i += 1;
            assert(samples@ =~= self@.take(i as int));
        }
        samples
    }

    /// Takes the oldest `frame_size` samples, if so many are waiting.
    pub fn drain_frames(&mut self, frame_size: usize) -> (frame: Option<Vec<T>>)
        requires
            old(self).wf(),
        ensures
            final(self).wf(),
            frame is Some <==> frame_size <= old(self)@.len(),
            frame matches Some(f) ==> f@ == old(self)@.take(frame_size as int) && final(self)@
                == old(self)@.skip(frame_size as int),
            frame is None ==> final(self)@ == old(self)@,
    {
        if self.len() < frame_size {
            return None;
        }
        let frame = self.head(frame_size);
        self.advance(frame_size);
        Some(frame)
    }

    /// Takes up to `max` of the oldest samples.
    pub fn take_available(&mut self, max: usize) -> (chunk: Vec<T>)
        requires
            old(self).wf(),
        ensures
            final(self).wf(),
            chunk@.len() == if old(self)@.len() <= max {
                old(self)@.len()
            } else {
                max as nat
            },
            chunk@ + final(self)@ == old(self)@,
    {
        let ghost before = self@;
        let n: usize = if self.len() < max {
            self.len()
        } else {
            max
        };
        if n == 0 {
            assert(Seq::<T>::empty() + self@ =~= before);
            return Vec::new();
        }
        let chunk = self.head(n);
        self.advance(n);
        assert(chunk@ + self@ =~= before);
        chunk
    }
}

/// What dropping the excess guarantees of any backlog: whole frames go, the backlog that stays is
/// less than one frame above the bound, and a backlog within the bound is not touched.
pub proof fn lemma_latency_bound(waiting: nat)
    ensures
        excess_samples(waiting) <= waiting,
        excess_samples(waiting) % (FRAME_SIZE as nat) == 0,
        waiting - excess_samples(waiting) < (MAX_BUFFER_FRAMES + 1) * FRAME_SIZE,
        waiting <= MAX_BUFFER_FRAMES * FRAME_SIZE ==> excess_samples(waiting) == 0,
        waiting >= MAX_BUFFER_FRAMES * FRAME_SIZE ==> waiting - excess_samples(waiting)
            >= MAX_BUFFER_FRAMES * FRAME_SIZE,
        excess_samples((waiting - excess_samples(waiting)) as nat) == 0,
{
    if waiting > MAX_BUFFER_FRAMES * FRAME_SIZE {
        let excess = waiting - MAX_BUFFER_FRAMES * FRAME_SIZE;
        assert(excess == 960 * (excess / 960) + excess % 960);
    }
}

} // verus!
