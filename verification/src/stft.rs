//! Windows in, windows out: the buffers of the short-time Fourier transform.
//!
//! The transform itself is the caller's; here a hop of samples becomes the windowed frame that is to be
//! transformed, and a frame that was transformed back becomes a hop of samples.
use vstd::prelude::*;
use std::ops::{Add, Mul};

use crate::config::{FFT_SIZE, HOP_SIZE};
use crate::dsp::{adds, exact, multiplies, product_gives, sum_gives};
use crate::network::{repeat, repeated};

verus! {

/// Buffers of an analysis and synthesis with windows that overlap by half.
pub struct StftEngine<T> {
    pub window: Vec<T>,
    /// The last window of input.
    pub analysis_buf: Vec<T>,
    /// What earlier windows contribute to the output that is still to come.
    pub overlap_buf: Vec<T>,
}

impl<T> StftEngine<T> {
    /// Both buffers span one transform, and the window at least that; what it has beyond is not read.
    pub open spec fn wf(&self) -> bool {
        &&& self.window@.len() >= FFT_SIZE
        &&& self.analysis_buf@.len() == FFT_SIZE
        &&& self.overlap_buf@.len() == FFT_SIZE
    }
}

/// Each of `z` is the product of the numbers of `x` and `y` at its place.
pub open spec fn products<T: Mul<Output = T>>(x: Seq<T>, y: Seq<T>, z: Seq<T>) -> bool {
    &&& z.len() == x.len()
    &&& forall|i: int| 0 <= i < x.len() ==> product_gives(x[i], y[i], #[trigger] z[i])
}

/// The input after one more hop: the older half makes room.
pub open spec fn shifted_in<T>(buf: Seq<T>, samples: Seq<T>) -> Seq<T> {
    buf.skip(HOP_SIZE as int) + samples
}

/// What a frame that was transformed back yields: each number is windowed and added to what earlier
/// frames have left; the first half goes out, and the second half, added to what was left beyond it, is
/// left for later.
pub open spec fn overlap_added<T: Add<Output = T> + Mul<Output = T>>(
    window: Seq<T>,
    overlap0: Seq<T>,
    frame: Seq<T>,
    zero: T,
    output: Seq<T>,
    overlap: Seq<T>,
) -> bool {
    &&& output.len() == HOP_SIZE
    &&& overlap.len() == FFT_SIZE
    &&& forall|i: int|
        0 <= i < HOP_SIZE ==> synthesized(window, overlap0, frame, i, #[trigger] output[i])
    &&& forall|i: int|
        0 <= i < FFT_SIZE - HOP_SIZE ==> carried(
            window,
            overlap0,
            frame,
            i,
            #[trigger] overlap[i],
        )
    &&& forall|i: int| FFT_SIZE - HOP_SIZE <= i < FFT_SIZE ==> #[trigger] overlap[i] == zero
}

/// Whether `s` is number `i` of the frame, windowed and added to what earlier frames have left.
pub open spec fn synthesized<T: Add<Output = T> + Mul<Output = T>>(
    window: Seq<T>,
    overlap0: Seq<T>,
    frame: Seq<T>,
    i: int,
    s: T,
) -> bool {
    exists|p: T| #[trigger] product_gives(frame[i], window[i], p) && sum_gives(overlap0[i], p, s)
}

/// Whether `o` is what is left at `i` for later frames.
pub open spec fn carried<T: Add<Output = T> + Mul<Output = T>>(
    window: Seq<T>,
    overlap0: Seq<T>,
    frame: Seq<T>,
    i: int,
    o: T,
) -> bool {
    exists|s: T|
        #[trigger] synthesized(window, overlap0, frame, i + HOP_SIZE, s) && sum_gives(
            overlap0[i + HOP_SIZE],
            s,
            o,
        )
}

impl<T: Copy> StftEngine<T> {
    /// An engine that has seen nothing but `zero`.
    pub fn new(window: Vec<T>, zero: T) -> (engine: Self)
        requires
            window@.len() >= FFT_SIZE,
        ensures
            engine.wf(),
            engine.window == window,
            engine.analysis_buf@ == repeated(zero, FFT_SIZE as nat),
            engine.overlap_buf@ == repeated(zero, FFT_SIZE as nat),
    {
        StftEngine {
            window,
            analysis_buf: repeat(zero, FFT_SIZE),
            overlap_buf: repeat(zero, FFT_SIZE),
        }
    }

    /// Forgets everything.
    pub fn reset(&mut self, zero: T)
        requires
            old(self).wf(),
        ensures
            final(self).wf(),
            final(self).window == old(self).window,
            final(self).analysis_buf@ == repeated(zero, FFT_SIZE as nat),
            final(self).overlap_buf@ == repeated(zero, FFT_SIZE as nat),
    {
        self.analysis_buf = repeat(zero, FFT_SIZE);
        self.overlap_buf = repeat(zero, FFT_SIZE);
    }

    /// Takes a hop of input in.
    fn shift_in(&mut self, samples: &[T])
        requires
            old(self).wf(),
            samples@.len() == HOP_SIZE,
        ensures
            final(self).wf(),
            final(self).window == old(self).window,
            final(self).overlap_buf == old(self).overlap_buf,
            final(self).analysis_buf@ == shifted_in(old(self).analysis_buf@, samples@),
    {
        let ghost before = self.analysis_buf@;
        let mut fresh = self.analysis_buf.split_off(HOP_SIZE);
        assert(fresh@ == before.skip(HOP_SIZE as int));
        let mut i: usize = 0;
        while i < samples.len()
            invariant
                i <= samples@.len(),
                fresh@ == before.skip(HOP_SIZE as int) + samples@.take(i as int),
            decreases samples@.len() - i,
        {
            fresh.push(samples[i]);
            i += 1;
            assert(fresh@ =~= before.skip(HOP_SIZE as int) + samples@.take(i as int));
        }
        assert(samples@.take(i as int) =~= samples@);
        self.analysis_buf = fresh;
    }
}

impl<T: Copy + Add<Output = T> + Mul<Output = T>> StftEngine<T> {
    /// Takes a hop of input in, and returns the windowed frame that is to be transformed.
    pub fn forward(&mut self, samples: &[T]) -> (frame: Vec<T>)
        requires
            old(self).wf(),
            multiplies::<T>(),
            samples@.len() == HOP_SIZE,
        ensures
            final(self).wf(),
            final(self).window == old(self).window,
            final(self).overlap_buf == old(self).overlap_buf,
            final(self).analysis_buf@ == shifted_in(old(self).analysis_buf@, samples@),
            products(final(self).analysis_buf@, old(self).window@, frame@),
    {
        self.shift_in(samples);
        let mut frame: Vec<T> = Vec::with_capacity(FFT_SIZE);
        let mut i: usize = 0;
        while i < FFT_SIZE
            invariant
                i <= FFT_SIZE,
                self.wf(),
                multiplies::<T>(),
                frame@.len() == i,
                forall|j: int|
                    0 <= j < i ==> product_gives(
                        self.analysis_buf@[j],
                        self.window@[j],
                        #[trigger] frame@[j],
                    ),
            decreases FFT_SIZE - i,
        {
            assert(call_requires(
                <T as Mul>::mul,
                (self.analysis_buf@[i as int], self.window@[i as int]),
            ));
            let p = self.analysis_buf[i] * self.window[i];
            assert(product_gives(self.analysis_buf@[i as int], self.window@[i as int], p));
            frame.push(p);
            i += 1;
        }
        frame
    }

    /// Windows a frame that was transformed back and adds it to what earlier ones have left; returns
    /// the hop of samples that is complete.
    pub fn inverse(&mut self, frame: &Vec<T>, zero: T) -> (output: Vec<T>)
        requires
            old(self).wf(),
            adds::<T>(),
            multiplies::<T>(),
            frame@.len() == FFT_SIZE,
        ensures
            final(self).wf(),
            final(self).window == old(self).window,
            final(self).analysis_buf == old(self).analysis_buf,
            overlap_added(
                old(self).window@,
                old(self).overlap_buf@,
                frame@,
                zero,
                output@,
                final(self).overlap_buf@,
            ),
    {
        let ghost w = self.window@;
        let ghost over = self.overlap_buf@;
        let mut output: Vec<T> = Vec::with_capacity(HOP_SIZE);
        let mut i: usize = 0;
        while i < HOP_SIZE
            invariant
                i <= HOP_SIZE,
                self.wf(),
                adds::<T>(),
                multiplies::<T>(),
                frame@.len() == FFT_SIZE,
                w == self.window@,
                over == self.overlap_buf@,
                output@.len() == i,
                forall|j: int|
                    0 <= j < i ==> synthesized(w, over, frame@, j, #[trigger] output@[j]),
            decreases HOP_SIZE - i,
        {
            let s = self.synthesize(frame, i);
            output.push(s);
            i += 1;
        }
        let mut overlap: Vec<T> = Vec::with_capacity(FFT_SIZE);
        let mut k: usize = 0;
        while k < FFT_SIZE - HOP_SIZE
            invariant
                k <= FFT_SIZE - HOP_SIZE,
                self.wf(),
                adds::<T>(),
                multiplies::<T>(),
                frame@.len() == FFT_SIZE,
                w == self.window@,
                over == self.overlap_buf@,
                overlap@.len() == k,
                forall|j: int|
                    0 <= j < k ==> carried(w, over, frame@, j, #[trigger] overlap@[j]),
            decreases FFT_SIZE - HOP_SIZE - k,
        {
            let s = self.synthesize(frame, k + HOP_SIZE);
            assert(call_requires(<T as Add>::add, (over[k + HOP_SIZE], s)));
            let o = self.overlap_buf[k + HOP_SIZE] + s;
            assert(sum_gives(over[k + HOP_SIZE], s, o));
            assert(synthesized(w, over, frame@, k + HOP_SIZE, s));
            overlap.push(o);
            k += 1;
        }
        let ghost low = overlap@;
        while k < FFT_SIZE
            invariant
                FFT_SIZE - HOP_SIZE <= k <= FFT_SIZE,
                overlap@.len() == k,
                low.len() == FFT_SIZE - HOP_SIZE,
                forall|j: int| 0 <= j < FFT_SIZE - HOP_SIZE ==> #[trigger] overlap@[j] == low[j],
                forall|j: int| FFT_SIZE - HOP_SIZE <= j < k ==> #[trigger] overlap@[j] == zero,
            decreases FFT_SIZE - k,
        {
            overlap.push(zero);
            k += 1;
        }
        assert forall|j: int| 0 <= j < FFT_SIZE - HOP_SIZE implies carried(
            w,
            over,
            frame@,
            j,
            #[trigger] overlap@[j],
        ) by {
            assert(overlap@[j] == low[j]);
        }
        self.overlap_buf = overlap;
        output
    }

    /// Number `i` of a frame, windowed and added to what earlier frames have left.
    fn synthesize(&self, frame: &Vec<T>, i: usize) -> (s: T)
        requires
            self.wf(),
            adds::<T>(),
            multiplies::<T>(),
            frame@.len() == FFT_SIZE,
            i < FFT_SIZE,
        ensures
            synthesized(self.window@, self.overlap_buf@, frame@, i as int, s),
    {
        assert(call_requires(<T as Mul>::mul, (frame@[i as int], self.window@[i as int])));
        let p = frame[i] * self.window[i];
        assert(product_gives(frame@[i as int], self.window@[i as int], p));
        assert(call_requires(<T as Add>::add, (self.overlap_buf@[i as int], p)));
        self.overlap_buf[i] + p
    }
}

/// Adding `zero` changes nothing, and a product with it is `zero`.
pub open spec fn neutral<T: Add<Output = T> + Mul<Output = T>>(zero: T) -> bool {
    &&& forall|x: T, z: T| #[trigger] sum_gives(x, zero, z) ==> z == x
    &&& forall|x: T, z: T| #[trigger] sum_gives(zero, x, z) ==> z == x
    &&& forall|x: T, z: T| #[trigger] product_gives(zero, x, z) ==> z == zero
}

/// Whether `z` is `x`, windowed twice at `i`.
pub open spec fn windowed_twice<T: Mul<Output = T>>(window: Seq<T>, i: int, x: T, z: T) -> bool {
    exists|p: T| #[trigger] product_gives(x, window[i], p) && product_gives(p, window[i], z)
}

/// The two halves of a window complement each other: a number that is windowed twice in the later half,
/// and once more twice in the earlier half, adds up to itself.
pub open spec fn complementary<T: Add<Output = T> + Mul<Output = T>>(window: Seq<T>) -> bool {
    forall|i: int, x: T, late: T, early: T, z: T|
        0 <= i < HOP_SIZE && #[trigger] windowed_twice(window, i + HOP_SIZE, x, late)
            && #[trigger] windowed_twice(window, i, x, early) && #[trigger] sum_gives(late, early, z)
            ==> z == x
}

/// What an engine that starts afresh goes through on `hops`, one after the other: `bufs` and `overlaps`
/// are its buffers before each hop and after the last, `frames` what is handed to the transform, `back`
/// what comes back from it, and `outs` what is given out.
pub open spec fn goes_through<T: Add<Output = T> + Mul<Output = T>>(
    window: Seq<T>,
    zero: T,
    hops: Seq<Seq<T>>,
    bufs: Seq<Seq<T>>,
    frames: Seq<Seq<T>>,
    back: Seq<Seq<T>>,
    overlaps: Seq<Seq<T>>,
    outs: Seq<Seq<T>>,
) -> bool {
    &&& bufs.len() == hops.len() + 1
    &&& overlaps.len() == hops.len() + 1
    &&& frames.len() == hops.len()
    &&& back.len() == hops.len()
    &&& outs.len() == hops.len()
    &&& bufs[0] == repeated(zero, FFT_SIZE as nat)
    &&& overlaps[0] == repeated(zero, FFT_SIZE as nat)
    &&& forall|k: int|
        0 <= k < hops.len() ==> {
            &&& (#[trigger] hops[k]).len() == HOP_SIZE
            &&& bufs[k + 1] == shifted_in(bufs[k], hops[k])
            &&& products(bufs[k + 1], window, frames[k])
            &&& overlap_added(window, overlaps[k], back[k], zero, outs[k], overlaps[k + 1])
        }
}

/// The buffers of a run span one transform, and the later half of what is left over is `zero`.
proof fn lemma_buffers<T: Add<Output = T> + Mul<Output = T>>(
    window: Seq<T>,
    zero: T,
    hops: Seq<Seq<T>>,
    bufs: Seq<Seq<T>>,
    frames: Seq<Seq<T>>,
    back: Seq<Seq<T>>,
    overlaps: Seq<Seq<T>>,
    outs: Seq<Seq<T>>,
    k: int,
)
    requires
        goes_through(window, zero, hops, bufs, frames, back, overlaps, outs),
        0 <= k <= hops.len(),
    ensures
        bufs[k].len() == FFT_SIZE,
        forall|i: int| HOP_SIZE <= i < FFT_SIZE ==> #[trigger] overlaps[k][i] == zero,
    decreases k,
{
    if k > 0 {
        lemma_buffers(window, zero, hops, bufs, frames, back, overlaps, outs, k - 1);
        assert(hops[k - 1].len() == HOP_SIZE);
    }
}

/// What frame `k` leaves for the next output: hop `k`, windowed twice in the later half.
proof fn lemma_left_over<T: Add<Output = T> + Mul<Output = T>>(
    window: Seq<T>,
    zero: T,
    hops: Seq<Seq<T>>,
    bufs: Seq<Seq<T>>,
    frames: Seq<Seq<T>>,
    overlaps: Seq<Seq<T>>,
    outs: Seq<Seq<T>>,
    k: int,
    i: int,
)
    requires
        goes_through(window, zero, hops, bufs, frames, frames, overlaps, outs),
        neutral(zero),
        0 <= k < hops.len(),
        0 <= i < HOP_SIZE,
    ensures
        windowed_twice(window, i + HOP_SIZE, hops[k][i], overlaps[k + 1][i]),
{
    lemma_buffers(window, zero, hops, bufs, frames, frames, overlaps, outs, k);
    assert(hops[k].len() == HOP_SIZE);
    let at = i + HOP_SIZE;
    assert(bufs[k + 1][at] == hops[k][i]);
    assert(product_gives(bufs[k + 1][at], window[at], frames[k][at]));
    assert(overlaps[k][at] == zero);
    let left = overlaps[k + 1][i];
    assert(carried(window, overlaps[k], frames[k], i, left));
    let s = choose|s: T| #[trigger]
        synthesized(window, overlaps[k], frames[k], i + HOP_SIZE, s) && sum_gives(
            overlaps[k][i + HOP_SIZE],
            s,
            left,
        );
    let p = choose|p: T| #[trigger]
        product_gives(frames[k][at], window[at], p) && sum_gives(overlaps[k][at], p, s);
    assert(s == p);
    assert(left == s);
}

/// Synthesis undoes analysis with a delay of exactly one hop. An engine that starts afresh, behind a
/// transform that gives every frame back as it was, first gives one hop of `zero` out, and then hop after
/// hop what it was given, without gain or ripple: where adding `zero` changes nothing, and the two halves
/// of the window complement each other.
pub proof fn lemma_synthesis_undoes_analysis<T: Add<Output = T> + Mul<Output = T>>(
    window: Seq<T>,
    zero: T,
    hops: Seq<Seq<T>>,
    bufs: Seq<Seq<T>>,
    frames: Seq<Seq<T>>,
    overlaps: Seq<Seq<T>>,
    outs: Seq<Seq<T>>,
)
    requires
        goes_through(window, zero, hops, bufs, frames, frames, overlaps, outs),
        neutral(zero),
        complementary(window),
    ensures
        hops.len() > 0 ==> outs[0] == repeated(zero, HOP_SIZE as nat),
        forall|k: int| 0 <= k < hops.len() - 1 ==> #[trigger] outs[k + 1] == hops[k],
{
    if hops.len() > 0 {
        assert(hops[0].len() == HOP_SIZE);
        assert forall|i: int| 0 <= i < HOP_SIZE implies outs[0][i] == zero by {
            assert(bufs[1][i] == zero);
            assert(product_gives(bufs[1][i], window[i], frames[0][i]));
            assert(synthesized(window, overlaps[0], frames[0], i, outs[0][i]));
        }
        assert(outs[0] =~= repeated(zero, HOP_SIZE as nat));
    }
    assert forall|k: int| 0 <= k < hops.len() - 1 implies #[trigger] outs[k + 1] == hops[k] by {
        lemma_buffers(window, zero, hops, bufs, frames, frames, overlaps, outs, k);
        assert(hops[k].len() == HOP_SIZE);
        assert(hops[k + 1].len() == HOP_SIZE);
        assert forall|i: int| 0 <= i < HOP_SIZE implies outs[k + 1][i] == hops[k][i] by {
            lemma_left_over(window, zero, hops, bufs, frames, overlaps, outs, k, i);
            assert(bufs[k + 2] == shifted_in(bufs[k + 1], hops[k + 1]));
            assert(bufs[k + 2][i] == bufs[k + 1][i + HOP_SIZE]);
            assert(bufs[k + 1][i + HOP_SIZE] == hops[k][i]);
            assert(product_gives(bufs[k + 2][i], window[i], frames[k + 1][i]));
            let out = outs[k + 1][i];
            assert(synthesized(window, overlaps[k + 1], frames[k + 1], i, out));
            let early = choose|p: T| #[trigger]
                product_gives(frames[k + 1][i], window[i], p) && sum_gives(
                    overlaps[k + 1][i],
                    p,
                    out,
                );
            assert(windowed_twice(window, i, hops[k][i], early));
        }
        assert(outs[k + 1] =~= hops[k]);
    }
}

/// Synthesis, in so many words: each sample that comes out is what was carried over for it plus the frame
/// times the window there; the second half of the frame, windowed, is carried over to the next hop, on top of
/// twice what was carried over for it already; and nothing is carried over further.
pub proof fn lemma_synthesis_by_sample<T: Add<Output = T> + Mul<Output = T>>(
    value: spec_fn(T) -> int,
    window: Seq<T>,
    overlap0: Seq<T>,
    frame: Seq<T>,
    zero: T,
    output: Seq<T>,
    overlap: Seq<T>,
    i: int,
)
    requires
        exact(value, zero),
        overlap_added(window, overlap0, frame, zero, output, overlap),
        0 <= i < 480,
    ensures
        output.len() == 480,
        overlap.len() == 960,
        value(output[i]) == value(overlap0[i]) + value(frame[i]) * value(window[i]),
        value(overlap[i]) == 2 * value(overlap0[i + 480]) + value(frame[i + 480]) * value(window[i + 480]),
        overlap[i + 480] == zero,
{
    assert(synthesized(window, overlap0, frame, i, output[i]));
    assert(carried(window, overlap0, frame, i, overlap[i]));
}

/// What is analysed: the hop before the new one and the new one, each sample times the window at its place.
pub proof fn lemma_analysis_by_sample<T: Add<Output = T> + Mul<Output = T>>(
    value: spec_fn(T) -> int,
    zero: T,
    buf: Seq<T>,
    samples: Seq<T>,
    window: Seq<T>,
    frame: Seq<T>,
    i: int,
)
    requires
        exact(value, zero),
        buf.len() == 960,
        samples.len() == 480,
        products(shifted_in(buf, samples), window, frame),
        0 <= i < 480,
    ensures
        frame.len() == 960,
        value(frame[i]) == value(buf[i + 480]) * value(window[i]),
        value(frame[i + 480]) == value(samples[i]) * value(window[i + 480]),
{
    assert(product_gives(shifted_in(buf, samples)[i], window[i], frame[i]));
    assert(product_gives(shifted_in(buf, samples)[i + 480], window[i + 480], frame[i + 480]));
}

} // verus!
