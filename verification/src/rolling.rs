//! The spectra of the last frames, and when the network is left out.
//!
//! A spectrum holds one row of bins `C` per channel.
use vstd::prelude::*;
use std::collections::VecDeque;
use std::ops::{Add, Mul};

use crate::dsp::{
    adds, df_fn, exact, lemma_mix_adds_both_shares, lemma_taps_weigh_their_own_rows,
    lemma_total_same, mix_noisy, mixes, multiplies, rows_of, sum_gives, tapped_after, total,
};
use crate::network::{repeat, repeated, QUIET_FRAMES};

verus! {

/// The last spectra, oldest first.
pub struct Rolling<C> {
    frames: VecDeque<Vec<Vec<C>>>,
}

impl<C> View for Rolling<C> {
    type V = Seq<Vec<Vec<C>>>;

    closed spec fn view(&self) -> Seq<Vec<Vec<C>>> {
        self.frames@
    }
}

/// Whether a spectrum has `ch` channels of `n_freqs` bins that are all `zero`.
pub open spec fn is_blank<C>(spectrum: Vec<Vec<C>>, ch: usize, n_freqs: usize, zero: C) -> bool {
    &&& spectrum@.len() == ch
    &&& forall|c: int|
        0 <= c < ch ==> (#[trigger] spectrum@[c])@ == repeated(zero, n_freqs as nat)
}

/// Whether every channel of a spectrum has `n_freqs` bins.
pub open spec fn full<C>(spectrum: Vec<Vec<C>>, n_freqs: usize) -> bool {
    forall|c: int| 0 <= c < spectrum@.len() ==> (#[trigger] spectrum@[c])@.len() == n_freqs
}

/// Whether every channel of every spectrum has `n_freqs` bins.
pub open spec fn all_full<C>(frames: Seq<Vec<Vec<C>>>, n_freqs: usize) -> bool {
    forall|i: int| 0 <= i < frames.len() ==> full(#[trigger] frames[i], n_freqs)
}

/// The spectra after one more: the oldest makes room for it.
pub open spec fn rolled<S>(frames: Seq<S>, newest: S) -> Seq<S> {
    if frames.len() > 0 {
        frames.drop_first().push(newest)
    } else {
        frames.push(newest)
    }
}

/// The spectra after more of them, in their order.
pub open spec fn rolled_all<S>(frames: Seq<S>, more: Seq<S>) -> Seq<S>
    decreases more.len(),
{
    if more.len() == 0 {
        frames
    } else {
        rolled(rolled_all(frames, more.drop_last()), more.last())
    }
}

/// What comes in pushes the rest out: the buffer holds the end of everything that it was ever given.
pub proof fn lemma_rolled_all<S>(frames: Seq<S>, more: Seq<S>)
    requires
        frames.len() > 0,
    ensures
        rolled_all(frames, more) == (frames + more).skip(more.len() as int),
    decreases more.len(),
{
    if more.len() == 0 {
        assert((frames + more).skip(0) =~= frames);
    } else {
        let before = more.drop_last();
        lemma_rolled_all(frames, before);
        let held = (frames + before).skip(before.len() as int);
        assert(held.drop_first().push(more.last()) =~= (frames + more).skip(more.len() as int));
    }
}

/// A buffer forgets: once it was given as many spectra as it holds, none from before is left.
pub proof fn lemma_buffer_flushes<S>(frames: Seq<S>, more: Seq<S>)
    requires
        0 < frames.len() <= more.len(),
    ensures
        rolled_all(frames, more) == more.skip(more.len() - frames.len()),
{
    lemma_rolled_all(frames, more);
    assert((frames + more).skip(more.len() as int) =~= more.skip(more.len() - frames.len()));
}

/// A blank spectrum.
pub fn blank_spectrum<C: Copy>(ch: usize, n_freqs: usize, zero: C) -> (spectrum: Vec<Vec<C>>)
    ensures
        is_blank(spectrum, ch, n_freqs, zero),
{
    let mut spectrum: Vec<Vec<C>> = Vec::new();
    while spectrum.len() < ch
        invariant
            spectrum@.len() <= ch,
            forall|c: int|
                0 <= c < spectrum@.len() ==> (#[trigger] spectrum@[c])@ == repeated(
                    zero,
                    n_freqs as nat,
                ),
        decreases ch - spectrum@.len(),
    {
        spectrum.push(repeat(zero, n_freqs));
    }
    spectrum
}

/// A spectrum with the same bins.
pub fn copy_spectrum<C: Copy>(spectrum: &Vec<Vec<C>>) -> (copy: Vec<Vec<C>>)
    ensures
        same_spectrum(copy, *spectrum),
{
    let mut copy: Vec<Vec<C>> = Vec::new();
    let mut c: usize = 0;
    while c < spectrum.len()
        invariant
            c <= spectrum@.len(),
            copy@.len() == c,
            forall|j: int| 0 <= j < c ==> (#[trigger] copy@[j])@ == spectrum@[j]@,
        decreases spectrum@.len() - c,
    {
        copy.push(copy_row(&spectrum[c]));
        c += 1;
    }
    copy
}

/// The same bins.
pub fn copy_row<C: Copy>(row: &Vec<C>) -> (copy: Vec<C>)
    ensures
        copy@ == row@,
{
    let mut copy: Vec<C> = Vec::with_capacity(row.len());
    let mut i: usize = 0;
    while i < row.len()
        invariant
            i <= row@.len(),
            copy@ == row@.take(i as int),
        decreases row@.len() - i,
    {
        copy.push(row[i]);
        i += 1;
        assert(copy@ =~= row@.take(i as int));
    }
    assert(copy@ =~= row@);
    copy
}

/// Two spectra have the same channels and bins.
pub open spec fn same_spectrum<C>(a: Vec<Vec<C>>, b: Vec<Vec<C>>) -> bool {
    &&& a@.len() == b@.len()
    &&& forall|c: int| 0 <= c < b@.len() ==> (#[trigger] a@[c])@ == b@[c]@
}

impl<C: Copy> Rolling<C> {
    /// A buffer of `n` blank spectra.
    pub fn new(n: usize, ch: usize, n_freqs: usize, zero: C) -> (buf: Self)
        ensures
            buf@.len() == n,
            forall|i: int| 0 <= i < n ==> is_blank(#[trigger] buf@[i], ch, n_freqs, zero),
    {
        let mut frames: VecDeque<Vec<Vec<C>>> = VecDeque::new();
        while frames.len() < n
            invariant
                frames@.len() <= n,
                forall|i: int|
                    0 <= i < frames@.len() ==> is_blank(
                        #[trigger] frames@[i],
                        ch,
                        n_freqs,
                        zero,
                    ),
            decreases n - frames@.len(),
        {
            frames.push_back(blank_spectrum(ch, n_freqs, zero));
        }
        Rolling { frames }
    }

    /// How many spectra are held.
    pub fn len(&self) -> (n: usize)
        ensures
            n == self@.len(),
    {
        self.frames.len()
    }

    /// Takes a spectrum in, in place of the oldest.
    pub fn push(&mut self, newest: Vec<Vec<C>>)
        ensures
            final(self)@ == rolled(old(self)@, newest),
    {
        let oldest = self.frames.pop_front();
        self.frames.push_back(newest);
        assert(self@ =~= rolled(old(self)@, newest));
    }

    /// Zeroes every spectrum.
    pub fn clear(&mut self, zero: C)
        ensures
            all_zeroed(final(self)@, old(self)@, zero),
    {
        let mut frames: VecDeque<Vec<Vec<C>>> = VecDeque::new();
        let mut i: usize = 0;
        while i < self.frames.len()
            invariant
                i <= self.frames@.len(),
                frames@.len() == i,
                forall|j: int|
                    0 <= j < i ==> zeroed(#[trigger] frames@[j], self.frames@[j], zero),
            decreases self.frames@.len() - i,
        {
            frames.push_back(zero_like(&self.frames[i], zero));
            i += 1;
        }
        self.frames = frames;
    }

    /// The spectrum at a position, oldest first.
    pub fn at(&self, i: usize) -> (spectrum: &Vec<Vec<C>>)
        requires
            i < self@.len(),
        ensures
            *spectrum == self@[i as int],
    {
        &self.frames[i]
    }
}

/// A spectrum has the channels and bins of another, and every bin is `zero`.
pub open spec fn zeroed<C>(spectrum: Vec<Vec<C>>, like: Vec<Vec<C>>, zero: C) -> bool {
    &&& spectrum@.len() == like@.len()
    &&& forall|c: int|
        0 <= c < like@.len() ==> (#[trigger] spectrum@[c])@ == repeated(zero, like@[c]@.len())
}

/// Every spectrum of a buffer was zeroed.
pub open spec fn all_zeroed<C>(frames: Seq<Vec<Vec<C>>>, like: Seq<Vec<Vec<C>>>, zero: C) -> bool {
    &&& frames.len() == like.len()
    &&& forall|i: int| 0 <= i < like.len() ==> zeroed(#[trigger] frames[i], like[i], zero)
}

/// A spectrum with the channels and bins of another, and every bin `zero`.
fn zero_like<C: Copy>(like: &Vec<Vec<C>>, zero: C) -> (spectrum: Vec<Vec<C>>)
    ensures
        zeroed(spectrum, *like, zero),
{
    let mut spectrum: Vec<Vec<C>> = Vec::new();
    let mut c: usize = 0;
    while c < like.len()
        invariant
            c <= like@.len(),
            spectrum@.len() == c,
            forall|j: int|
                0 <= j < c ==> (#[trigger] spectrum@[j])@ == repeated(zero, like@[j]@.len()),
        decreases like@.len() - c,
    {
        spectrum.push(repeat(zero, like[c].len()));
        c += 1;
    }
    spectrum
}

/// What is remembered of earlier frames.
pub struct NetworkState<C> {
    /// Spectra for the band gains.
    pub gained: Rolling<C>,
    /// Spectra for the deep filter.
    pub noisy: Rolling<C>,
    pub df_order: usize,
    pub conv_lookahead: usize,
    pub lookahead: usize,
    pub ch: usize,
    pub n_freqs: usize,
    /// Frames in a row that were left out or left alone.
    pub skip_counter: usize,
}

/// The greater of two counts.
pub open spec fn greatest(a: usize, b: usize) -> usize {
    if a >= b {
        a
    } else {
        b
    }
}

impl<C: Copy> NetworkState<C> {
    /// The buffers reach back as far as the filter and the lookaheads need, and every channel in them
    /// has all bins.
    pub open spec fn wf(&self) -> bool {
        &&& self.gained@.len() == self.df_order + self.conv_lookahead
        &&& self.noisy@.len() == greatest(self.df_order, self.lookahead)
        &&& all_full(self.gained@, self.n_freqs)
        &&& all_full(self.noisy@, self.n_freqs)
    }

    /// The parameters are as in `other`.
    pub open spec fn same_parameters(&self, other: &Self) -> bool {
        &&& self.df_order == other.df_order
        &&& self.conv_lookahead == other.conv_lookahead
        &&& self.lookahead == other.lookahead
        &&& self.ch == other.ch
        &&& self.n_freqs == other.n_freqs
    }

    /// Every remembered spectrum is blank.
    pub open spec fn blank(&self, zero: C) -> bool {
        &&& forall|i: int|
            0 <= i < self.gained@.len() ==> is_blank(
                #[trigger] self.gained@[i],
                self.ch,
                self.n_freqs,
                zero,
            )
        &&& forall|i: int|
            0 <= i < self.noisy@.len() ==> is_blank(
                #[trigger] self.noisy@[i],
                self.ch,
                self.n_freqs,
                zero,
            )
    }

    /// The state before the first frame.
    pub fn new(
        df_order: usize,
        conv_lookahead: usize,
        lookahead: usize,
        ch: usize,
        n_freqs: usize,
        zero: C,
    ) -> (state: Self)
        requires
            df_order + conv_lookahead <= usize::MAX,
        ensures
            state.wf(),
            state.blank(zero),
            state.df_order == df_order,
            state.conv_lookahead == conv_lookahead,
            state.lookahead == lookahead,
            state.ch == ch,
            state.n_freqs == n_freqs,
            state.skip_counter == 0,
    {
        let gained = Rolling::new(df_order + conv_lookahead, ch, n_freqs, zero);
        let noisy = Rolling::new(
            if df_order >= lookahead {
                df_order
            } else {
                lookahead
            },
            ch,
            n_freqs,
            zero,
        );
        proof {
            lemma_blank_is_full(gained@, ch, n_freqs, zero);
            lemma_blank_is_full(noisy@, ch, n_freqs, zero);
        }
        NetworkState {
            gained,
            noisy,
            df_order,
            conv_lookahead,
            lookahead,
            ch,
            n_freqs,
            skip_counter: 0,
        }
    }

    /// Forgets every frame.
    pub fn init(&mut self, zero: C)
        requires
            old(self).wf(),
        ensures
            final(self).wf(),
            final(self).same_parameters(old(self)),
            all_zeroed(final(self).gained@, old(self).gained@, zero),
            all_zeroed(final(self).noisy@, old(self).noisy@, zero),
            final(self).skip_counter == 0,
    {
        self.gained.clear(zero);
        self.noisy.clear(zero);
        self.skip_counter = 0;
        proof {
            lemma_zeroed_is_full(self.gained@, old(self).gained@, self.n_freqs, zero);
            lemma_zeroed_is_full(self.noisy@, old(self).noisy@, self.n_freqs, zero);
        }
    }

    /// Counts quiet frames, and returns whether this one is left out: it is once more than
    /// [`QUIET_FRAMES`] in a row were quiet.
    pub fn begin(&mut self, quiet: bool) -> (skip: bool)
        requires
            old(self).wf(),
            old(self).skip_counter < usize::MAX,
        ensures
            final(self).wf(),
            final(self).same_parameters(old(self)),
            final(self).gained == old(self).gained,
            final(self).noisy == old(self).noisy,
            final(self).skip_counter == if quiet {
                old(self).skip_counter + 1
            } else {
                0
            },
            skip == (final(self).skip_counter > QUIET_FRAMES),
    {
        if quiet {
            self.skip_counter = self.skip_counter + 1;
        } else {
            self.skip_counter = 0;
        }
        self.skip_counter > QUIET_FRAMES
    }

    /// Takes the spectrum of a frame in.
    pub fn accept(&mut self, spectrum: Vec<Vec<C>>)
        requires
            old(self).wf(),
            old(self).df_order > 0,
            full(spectrum, old(self).n_freqs),
        ensures
            final(self).wf(),
            final(self).same_parameters(old(self)),
            final(self).skip_counter == old(self).skip_counter,
            final(self).gained@ == rolled(old(self).gained@, spectrum),
            final(self).noisy@.len() == old(self).noisy@.len(),
            final(self).noisy@.drop_last() == old(self).noisy@.drop_first(),
            same_spectrum(final(self).noisy@.last(), spectrum),
    {
        let copy = copy_spectrum(&spectrum);
        self.gained.push(spectrum);
        self.noisy.push(copy);
        assert(self.noisy@.drop_last() =~= old(self).noisy@.drop_first());
        proof {
            lemma_rolled_is_full(old(self).gained@, spectrum, self.n_freqs);
            assert(full(copy, self.n_freqs));
            lemma_rolled_is_full(old(self).noisy@, copy, self.n_freqs);
        }
    }

    /// Takes note of whether gains were applied to a frame.
    pub fn gains_applied(&mut self, applied: bool)
        requires
            old(self).wf(),
            old(self).skip_counter < usize::MAX,
        ensures
            final(self).wf(),
            final(self).same_parameters(old(self)),
            final(self).gained == old(self).gained,
            final(self).noisy == old(self).noisy,
            final(self).skip_counter == if applied {
                0
            } else {
                old(self).skip_counter + 1
            },
    {
        if applied {
            self.skip_counter = 0;
        } else {
            self.skip_counter = self.skip_counter + 1;
        }
    }

    /// The spectrum that gains are applied to: it lies `conv_lookahead` frames back.
    pub fn to_enhance(&self) -> (spectrum: Vec<Vec<C>>)
        requires
            self.wf(),
            self.df_order > 0,
        ensures
            same_spectrum(spectrum, self.gained@[self.gained@.len() - 1 - self.conv_lookahead]),
    {
        copy_spectrum(self.gained.at(self.df_order - 1))
    }

    /// The unprocessed spectrum of the frame that is being delivered: it lies `lookahead` frames
    /// back.
    pub fn delivered_noisy(&self) -> (spectrum: &Vec<Vec<C>>)
        requires
            self.wf(),
            self.lookahead < self.df_order,
        ensures
            *spectrum == self.noisy@[self.noisy@.len() - 1 - self.lookahead],
    {
        self.noisy.at(self.df_order - self.lookahead - 1)
    }

    /// The first channels of the spectra that the deep filter reads, oldest first.
    pub fn filter_input(&self) -> (rows: Vec<Vec<C>>)
        requires
            self.wf(),
            forall|i: int| 0 <= i < self.df_order ==> (#[trigger] self.noisy@[i])@.len() > 0,
        ensures
            rows@.len() == self.df_order,
            forall|i: int|
                0 <= i < self.df_order ==> (#[trigger] rows@[i])@ == self.noisy@[i]@[0]@,
    {
        let mut rows: Vec<Vec<C>> = Vec::new();
        let mut i: usize = 0;
        while i < self.df_order
            invariant
                i <= self.df_order,
                self.wf(),
                forall|j: int| 0 <= j < self.df_order ==> (#[trigger] self.noisy@[j])@.len() > 0,
                rows@.len() == i,
                forall|j: int| 0 <= j < i ==> (#[trigger] rows@[j])@ == self.noisy@[j]@[0]@,
            decreases self.df_order - i,
        {
            assert(self.noisy@[i as int]@.len() > 0);
            rows.push(copy_row(&self.noisy.at(i)[0]));
            i += 1;
        }
        rows
    }
}

/// Blank spectra have all bins.
proof fn lemma_blank_is_full<C>(frames: Seq<Vec<Vec<C>>>, ch: usize, n_freqs: usize, zero: C)
    requires
        forall|i: int| 0 <= i < frames.len() ==> is_blank(#[trigger] frames[i], ch, n_freqs, zero),
    ensures
        all_full(frames, n_freqs),
{
    assert forall|i: int| 0 <= i < frames.len() implies full(#[trigger] frames[i], n_freqs) by {
        assert(is_blank(frames[i], ch, n_freqs, zero));
    }
}

/// Zeroed spectra keep their bins.
proof fn lemma_zeroed_is_full<C>(
    frames: Seq<Vec<Vec<C>>>,
    like: Seq<Vec<Vec<C>>>,
    n_freqs: usize,
    zero: C,
)
    requires
        all_zeroed(frames, like, zero),
        all_full(like, n_freqs),
    ensures
        all_full(frames, n_freqs),
{
    assert forall|i: int| 0 <= i < frames.len() implies full(#[trigger] frames[i], n_freqs) by {
        assert(zeroed(frames[i], like[i], zero));
        assert(full(like[i], n_freqs));
        assert forall|c: int| 0 <= c < frames[i]@.len() implies (#[trigger] frames[i]@[c])@.len()
            == n_freqs by {
            assert(like[i]@[c]@.len() == n_freqs);
        }
    }
}

/// A buffer of full spectra stays one with one more.
proof fn lemma_rolled_is_full<C>(frames: Seq<Vec<Vec<C>>>, newest: Vec<Vec<C>>, n_freqs: usize)
    requires
        all_full(frames, n_freqs),
        full(newest, n_freqs),
    ensures
        all_full(rolled(frames, newest), n_freqs),
{
    let after = rolled(frames, newest);
    assert forall|i: int| 0 <= i < after.len() implies full(#[trigger] after[i], n_freqs) by {
        if i < after.len() - 1 {
            assert(after[i] == frames[i + 1]);
        }
    }
}

/// Starting anew is as good as starting: spectra of `ch` channels that were zeroed are the blank ones of a
/// new buffer, whatever was in them.
pub proof fn lemma_zeroed_is_fresh<C>(
    frames: Seq<Vec<Vec<C>>>,
    like: Seq<Vec<Vec<C>>>,
    ch: usize,
    n_freqs: usize,
    zero: C,
)
    requires
        all_zeroed(frames, like, zero),
        all_full(like, n_freqs),
        forall|i: int| 0 <= i < like.len() ==> (#[trigger] like[i])@.len() == ch,
    ensures
        frames.len() == like.len(),
        forall|i: int| 0 <= i < frames.len() ==> is_blank(#[trigger] frames[i], ch, n_freqs, zero),
{
    assert forall|i: int| 0 <= i < frames.len() implies is_blank(
        #[trigger] frames[i],
        ch,
        n_freqs,
        zero,
    ) by {
        assert(zeroed(frames[i], like[i], zero));
        assert(full(like[i], n_freqs));
        assert forall|c: int| 0 <= c < ch implies (#[trigger] frames[i]@[c])@ == repeated(
            zero,
            n_freqs as nat,
        ) by {
            assert(like[i]@[c]@.len() == n_freqs);
        }
    }
}

/// Of two buffers that were given the same frames, the one for the band gains yields the frame that is
/// `conv_lookahead` back and the one for the deep filter yields the frame that is `lookahead` back:
/// where the lookaheads agree, so do the frames.
pub proof fn lemma_buffers_aligned<S>(
    gained: Seq<S>,
    noisy: Seq<S>,
    frames: Seq<S>,
    conv_lookahead: nat,
    lookahead: nat,
)
    requires
        conv_lookahead < gained.len() <= frames.len(),
        lookahead < noisy.len() <= frames.len(),
    ensures
        rolled_all(gained, frames)[gained.len() - 1 - conv_lookahead] == frames[frames.len() - 1
            - conv_lookahead],
        rolled_all(noisy, frames)[noisy.len() - 1 - lookahead] == frames[frames.len() - 1
            - lookahead],
{
    lemma_buffer_flushes(gained, frames);
    lemma_buffer_flushes(noisy, frames);
}

/// What the enhanced spectrum of a frame is made of: the channels that are processed are masked where
/// there is a mask, and the first one is then run through the deep filter where there is one.
pub open spec fn enhanced_from<C: Copy + Add<Output = C> + Mul<Output = C>, F: Fn(&Vec<C>) -> Vec<C>>(
    source: Vec<Vec<C>>,
    filter_rows: Seq<Vec<C>>,
    mask: Option<F>,
    coefs: Option<Vec<Vec<C>>>,
    ch: usize,
    nb_df: usize,
    df_order: usize,
    zero: C,
    masked: Seq<Seq<C>>,
    enhanced: Seq<Vec<C>>,
) -> bool {
    &&& masked.len() == source@.len()
    &&& enhanced.len() == source@.len()
    &&& forall|c: int| 0 <= c < source@.len() ==> channel_masked(source@[c], mask, c < ch, #[trigger] masked[c])
    &&& forall|c: int| 1 <= c < source@.len() ==> (#[trigger] enhanced[c])@ == masked[c]
    &&& coefs is None ==> enhanced[0]@ == masked[0]
    &&& coefs matches Some(k) ==> {
        &&& enhanced[0]@.len() == masked[0].len()
        &&& forall|f: int|
            0 <= f < nb_df ==> tapped_after(
                rows_of(filter_rows),
                rows_of(k@),
                f,
                df_order as nat,
                zero,
                #[trigger] enhanced[0]@[f],
            )
        &&& forall|f: int|
            nb_df <= f < masked[0].len() ==> #[trigger] enhanced[0]@[f] == masked[0][f]
    }
}

/// `enhanced` is the spectrum of the frame that is being delivered, enhanced: `gained` and `noisy` are the
/// remembered spectra, and the deep filter reads the first channels of the oldest noisy ones.
pub open spec fn enhances<C: Copy + Add<Output = C> + Mul<Output = C>, F: Fn(&Vec<C>) -> Vec<C>>(
    gained: Seq<Vec<Vec<C>>>,
    noisy: Seq<Vec<Vec<C>>>,
    df_order: usize,
    mask: Option<F>,
    coefs: Option<Vec<Vec<C>>>,
    ch: usize,
    nb_df: usize,
    zero: C,
    enhanced: Seq<Vec<C>>,
) -> bool {
    exists|masked: Seq<Seq<C>>, rows: Seq<Vec<C>>|
        {
            &&& coefs is Some ==> rows.len() == df_order && forall|i: int|
                0 <= i < df_order ==> (#[trigger] rows[i])@ == noisy[i]@[0]@
            &&& #[trigger] enhanced_from(
                gained[df_order - 1],
                rows,
                mask,
                coefs,
                ch,
                nb_df,
                df_order,
                zero,
                masked,
                enhanced,
            )
        }
}

/// A channel that is processed is what the mask makes of it; any other is as it was.
pub open spec fn channel_masked<C, F: Fn(&Vec<C>) -> Vec<C>>(
    source: Vec<C>,
    mask: Option<F>,
    processed: bool,
    masked: Seq<C>,
) -> bool {
    if processed && mask is Some {
        exists|input: Vec<C>, output: Vec<C>|
            {
                &&& input@ == source@
                &&& output@ == masked
                &&& #[trigger] mask->Some_0.ensures((&input,), output)
            }
    } else {
        masked == source@
    }
}

impl<C: Copy + Add<Output = C> + Mul<Output = C>> NetworkState<C> {
    /// Enhances the spectrum of the frame that is being delivered. Only the first `ch` channels are
    /// masked; the deep filter works on the lowest `nb_df` bins of the first channel.
    pub fn enhance<F: Fn(&Vec<C>) -> Vec<C>>(
        &mut self,
        mask: Option<F>,
        coefs: &Option<Vec<Vec<C>>>,
        ch: usize,
        nb_df: usize,
        zero: C,
    ) -> (enhanced: Vec<Vec<C>>)
        requires
            old(self).wf(),
            old(self).df_order > 0,
            old(self).skip_counter < usize::MAX,
            adds::<C>(),
            multiplies::<C>(),
            0 < old(self).gained@[old(self).df_order - 1]@.len(),
            ch <= old(self).gained@[old(self).df_order - 1]@.len(),
            nb_df <= old(self).n_freqs,
            mask matches Some(m) ==> {
                &&& forall|row: &Vec<C>| #[trigger] m.requires((row,))
                &&& forall|row: &Vec<C>, out: Vec<C>| #[trigger]
                    m.ensures((row,), out) ==> out@.len() == row@.len()
            },
            coefs matches Some(k) ==> {
                &&& k@.len() >= old(self).df_order
                &&& forall|i: int|
                    0 <= i < old(self).df_order ==> (#[trigger] k@[i])@.len() >= nb_df
                &&& forall|i: int|
                    0 <= i < old(self).df_order ==> (#[trigger] old(self).noisy@[i])@.len() > 0
            },
        ensures
            final(self).wf(),
            final(self).same_parameters(old(self)),
            final(self).gained == old(self).gained,
            final(self).noisy == old(self).noisy,
            final(self).skip_counter == if mask is Some {
                0
            } else {
                old(self).skip_counter + 1
            },
            full(enhanced, old(self).n_freqs),
            enhances(
                old(self).gained@,
                old(self).noisy@,
                old(self).df_order,
                mask,
                *coefs,
                ch,
                nb_df,
                zero,
                enhanced@,
            ),
    {
        let ghost source = self.gained@[self.df_order - 1];
        assert(full(source, self.n_freqs));
        assert(source@[0]@.len() == self.n_freqs);
        let mut spectrum = self.to_enhance();
        assert(same_spectrum(spectrum, source));
        let applied = mask.is_some();
        if let Some(m) = &mask {
            let mut c: usize = 0;
            while c < ch
                invariant
                    c <= ch <= source@.len(),
                    mask == Some(*m),
                    forall|row: &Vec<C>| #[trigger] (*m).requires((row,)),
                    forall|row: &Vec<C>, out: Vec<C>| #[trigger]
                        (*m).ensures((row,), out) ==> out@.len() == row@.len(),
                    spectrum@.len() == source@.len(),
                    forall|j: int|
                        0 <= j < c ==> channel_masked(
                            source@[j],
                            mask,
                            true,
                            (#[trigger] spectrum@[j])@,
                        ) && spectrum@[j]@.len() == source@[j]@.len(),
                    forall|j: int|
                        c <= j < source@.len() ==> (#[trigger] spectrum@[j])@ == source@[j]@,
                decreases ch - c,
            {
                let ghost row = spectrum@[c as int];
                let ghost before = spectrum@;
                let out = (*m)(&spectrum[c]);
                assert(mask->Some_0.ensures((&row,), out));
                assert(channel_masked(source@[c as int], mask, true, out@));
                spectrum.set(c, out);
                assert forall|j: int| 0 <= j < c + 1 implies channel_masked(
                    source@[j],
                    mask,
                    true,
                    (#[trigger] spectrum@[j])@,
                ) && spectrum@[j]@.len() == source@[j]@.len() by {
                    if j < c {
                        assert(spectrum@[j] == before[j]);
                    }
                }
                c += 1;
            }
        }
        let ghost masked = rows_of(spectrum@);
        let ghost after_mask = spectrum@;
        proof {
            assert forall|c: int| 0 <= c < source@.len() implies channel_masked(
                source@[c],
                mask,
                c < ch,
                #[trigger] masked[c],
            ) by {
                assert(masked[c] == spectrum@[c]@);
            }
            assert(masked[0] == spectrum@[0]@);
            assert(spectrum@[0]@.len() == source@[0]@.len());
        }
        self.gains_applied(applied);
        let ghost mut rows: Seq<Vec<C>> = Seq::empty();
        if let Some(k) = coefs {
            let filter_rows = self.filter_input();
            proof {
                rows = filter_rows@;
                assert forall|i: int| 0 <= i < self.df_order implies (#[trigger] filter_rows@[i])@.len()
                    >= nb_df by {
                    assert(filter_rows@[i]@ == self.noisy@[i]@[0]@);
                    assert(full(self.noisy@[i], self.n_freqs));
                    assert(self.noisy@[i]@.len() > 0);
                    assert(self.noisy@[i]@[0]@.len() == self.n_freqs);
                }
            }
            let mut first: Vec<C> = Vec::new();
            std::mem::swap(&mut first, &mut spectrum[0]);
            df_fn(&filter_rows, k, nb_df, self.df_order, zero, &mut first);
            std::mem::swap(&mut first, &mut spectrum[0]);
            assert forall|c: int| 1 <= c < source@.len() implies (#[trigger] spectrum@[c])@
                == masked[c] by {
                assert(spectrum@[c] == after_mask[c]);
            }
        } else {
            assert forall|c: int| 1 <= c < source@.len() implies (#[trigger] spectrum@[c])@
                == masked[c] by {}
        }
        assert(enhanced_from(
            source,
            rows,
            mask,
            *coefs,
            ch,
            nb_df,
            self.df_order,
            zero,
            masked,
            spectrum@,
        ));
        spectrum
    }
}

/// What the network says of a frame.
pub struct Verdict<L, M, C> {
    /// The estimated signal-to-noise ratio.
    pub lsnr: L,
    /// Applies the band gains to a channel, where gains apply.
    pub mask: Option<M>,
    /// The deep filter, one row of coefficients per tap, where it applies.
    pub coefs: Option<Vec<Vec<C>>>,
}

/// What became of a frame.
pub enum Processed<L, C> {
    /// It was left out: silence is delivered.
    Silent,
    /// It is delivered as it came.
    Untouched,
    /// It was enhanced.
    Enhanced { lsnr: L, spectrum: Vec<Vec<C>> },
}

/// Whether a verdict can be carried out: the mask works on every channel and keeps its bins, and the
/// coefficients cover `df_order` taps and `nb_df` bins.
pub open spec fn fits<L, M: Fn(&Vec<C>) -> Vec<C>, C>(
    verdict: Verdict<L, M, C>,
    df_order: usize,
    nb_df: usize,
) -> bool {
    &&& verdict.mask matches Some(m) ==> {
        &&& forall|row: &Vec<C>| #[trigger] m.requires((row,))
        &&& forall|row: &Vec<C>, out: Vec<C>| #[trigger]
            m.ensures((row,), out) ==> out@.len() == row@.len()
    }
    &&& verdict.coefs matches Some(k) ==> {
        &&& k@.len() >= df_order
        &&& forall|i: int| 0 <= i < df_order ==> (#[trigger] k@[i])@.len() >= nb_df
    }
}

/// A channel was mixed with the noisy one, as far as both reach.
pub open spec fn channel_mixed<G, C: Add<Output = C> + Mul<G, Output = C>>(
    before: Seq<C>,
    noisy: Seq<C>,
    keep: G,
    back: G,
    after: Seq<C>,
) -> bool {
    &&& after.len() == before.len()
    &&& forall|f: int|
        0 <= f < before.len() && f < noisy.len() ==> mixes(
            before[f],
            noisy[f],
            keep,
            back,
            #[trigger] after[f],
        )
    &&& forall|f: int| noisy.len() <= f < before.len() ==> #[trigger] after[f] == before[f]
}

/// The first `ch` channels were mixed with the noisy ones where there is a limit, and nothing else was
/// changed.
pub open spec fn all_mixed<G, C: Add<Output = C> + Mul<G, Output = C>>(
    before: Seq<Vec<C>>,
    noisy: Vec<Vec<C>>,
    limit: Option<(G, G)>,
    ch: usize,
    after: Seq<Vec<C>>,
) -> bool {
    &&& after.len() == before.len()
    &&& forall|c: int|
        0 <= c < before.len() ==> if c < ch && limit is Some {
            channel_mixed(
                before[c]@,
                noisy@[c]@,
                limit->Some_0.0,
                limit->Some_0.1,
                (#[trigger] after[c])@,
            )
        } else {
            after[c]@ == before[c]@
        }
}

/// A buffer has taken a spectrum in, in place of its oldest.
pub open spec fn taken_in<C>(
    before: Seq<Vec<Vec<C>>>,
    after: Seq<Vec<Vec<C>>>,
    spectrum: Vec<Vec<C>>,
) -> bool {
    &&& after.len() == before.len()
    &&& after.drop_last() == before.drop_first()
    &&& same_spectrum(after.last(), spectrum)
}

/// Quiet frames in a row, after one more frame.
pub open spec fn quiet_after(counter: usize, quiet: bool) -> int {
    if quiet {
        counter + 1
    } else {
        0
    }
}

/// A frame was enhanced as `verdict` says, `counted` quiet frames having gone before: `state` is what is then
/// remembered.
pub open spec fn carried_out<
    G,
    L,
    C: Copy + Add<Output = C> + Mul<Output = C> + Mul<G, Output = C>,
    M: Fn(&Vec<C>) -> Vec<C>,
>(
    state: NetworkState<C>,
    verdict: Verdict<L, M, C>,
    counted: int,
    ch: usize,
    nb_df: usize,
    limit: Option<(G, G)>,
    zero: C,
    enhanced: Seq<Vec<C>>,
) -> bool {
    &&& state.skip_counter == if verdict.mask is Some {
        0
    } else {
        counted + 1
    }
    &&& exists|plain: Seq<Vec<C>>|
        {
            &&& #[trigger] enhances(
                state.gained@,
                state.noisy@,
                state.df_order,
                verdict.mask,
                verdict.coefs,
                ch,
                nb_df,
                zero,
                plain,
            )
            &&& all_mixed(
                plain,
                state.noisy@[state.noisy@.len() - 1 - state.lookahead],
                limit,
                ch,
                enhanced,
            )
        }
}

/// Mixes the first `ch` channels of a spectrum with the noisy ones.
fn mix_channels<G: Copy, C: Copy + Add<Output = C> + Mul<G, Output = C>>(
    spectrum: &mut Vec<Vec<C>>,
    noisy: &Vec<Vec<C>>,
    ch: usize,
    keep: G,
    back: G,
)
    requires
        adds::<C>(),
        forall|x: C, y: G| #[trigger] call_requires(<C as Mul<G>>::mul, (x, y)),
        ch <= old(spectrum)@.len(),
        ch <= noisy@.len(),
    ensures
        all_mixed(old(spectrum)@, *noisy, Some((keep, back)), ch, final(spectrum)@),
{
    let mut c: usize = 0;
    while c < ch
        invariant
            c <= ch <= noisy@.len(),
            adds::<C>(),
            forall|x: C, y: G| #[trigger] call_requires(<C as Mul<G>>::mul, (x, y)),
            ch <= old(spectrum)@.len() == spectrum@.len(),
            forall|j: int|
                0 <= j < c ==> channel_mixed(
                    old(spectrum)@[j]@,
                    noisy@[j]@,
                    keep,
                    back,
                    (#[trigger] spectrum@[j])@,
                ),
            forall|j: int|
                c <= j < spectrum@.len() ==> #[trigger] spectrum@[j] == old(spectrum)@[j],
        decreases ch - c,
    {
        let ghost before = spectrum@;
        let mut row: Vec<C> = Vec::new();
        std::mem::swap(&mut row, &mut spectrum[c]);
        mix_noisy(&mut row, &noisy[c], keep, back);
        std::mem::swap(&mut row, &mut spectrum[c]);
        assert forall|j: int| 0 <= j < c + 1 implies channel_mixed(
            old(spectrum)@[j]@,
            noisy@[j]@,
            keep,
            back,
            (#[trigger] spectrum@[j])@,
        ) by {
            if j < c {
                assert(spectrum@[j] == before[j]);
            }
        }
        c += 1;
    }
}

impl<C: Copy + Add<Output = C> + Mul<Output = C>> NetworkState<C> {
    /// One frame through the network. A frame that follows too many quiet ones is left out. Any other is
    /// analysed and remembered, and unless it is to stay `untouched`, `raw` says how the frame that is being
    /// delivered is enhanced; with a `limit`, every bin then keeps the first share and gets the second share
    /// of the noisy one.
    pub fn process<G, L, M, E, A, R>(
        &mut self,
        quiet: bool,
        analyse: A,
        untouched: bool,
        raw: R,
        ch: usize,
        nb_df: usize,
        limit: Option<(G, G)>,
        zero: C,
    ) -> (processed: Result<Processed<L, C>, E>) where
        G: Copy,
        C: Mul<G, Output = C>,
        M: Fn(&Vec<C>) -> Vec<C>,
        A: FnOnce() -> Vec<Vec<C>>,
        R: FnOnce(&Vec<Vec<C>>) -> Result<Verdict<L, M, C>, E>,

        requires
            old(self).wf(),
            old(self).df_order > 0,
            old(self).skip_counter < usize::MAX,
            ch > 0,
            nb_df <= old(self).n_freqs,
            adds::<C>(),
            multiplies::<C>(),
            forall|x: C, y: G| #[trigger] call_requires(<C as Mul<G>>::mul, (x, y)),
            quiet_after(old(self).skip_counter, quiet) <= QUIET_FRAMES ==> analyse.requires(()),
            forall|s: Vec<Vec<C>>| #[trigger]
                analyse.ensures((), s) ==> s@.len() == ch && full(s, old(self).n_freqs),
            quiet_after(old(self).skip_counter, quiet) <= QUIET_FRAMES && !untouched ==> forall|
                s: &Vec<Vec<C>>,
            | #[trigger] raw.requires((s,)),
            forall|s: &Vec<Vec<C>>, v: Verdict<L, M, C>| #[trigger]
                raw.ensures((s,), Ok(v)) ==> fits(v, old(self).df_order, nb_df),
            old(self).conv_lookahead > 0 ==> old(self).gained@[old(
                self).df_order as int]@.len() >= ch,
            forall|i: int|
                0 < i <= old(self).df_order && i < old(self).noisy@.len() ==> (#[trigger] old(
                    self).noisy@[i])@.len() > 0,
            limit is Some ==> old(self).lookahead < old(self).df_order,
            limit is Some && old(self).lookahead > 0 ==> old(self).noisy@[old(self).df_order - old(
                self).lookahead]@.len() >= ch,
        ensures
            final(self).wf(),
            final(self).same_parameters(old(self)),
            ({
                let counted = quiet_after(old(self).skip_counter, quiet);
                if counted > QUIET_FRAMES {
                    &&& processed matches Ok(Processed::Silent)
                    &&& final(self).skip_counter == counted
                    &&& final(self).gained == old(self).gained
                    &&& final(self).noisy == old(self).noisy
                } else {
                    exists|s: Vec<Vec<C>>|
                        {
                            &&& #[trigger] analyse.ensures((), s)
                            &&& taken_in(old(self).gained@, final(self).gained@, s)
                            &&& taken_in(old(self).noisy@, final(self).noisy@, s)
                            &&& match processed {
                                Ok(Processed::Silent) => false,
                                Ok(Processed::Untouched) => untouched && final(self).skip_counter
                                    == counted,
                                Err(e) => !untouched && raw.ensures((&s,), Err(e)) && final(
                                    self).skip_counter == counted,
                                Ok(Processed::Enhanced { lsnr, spectrum }) => !untouched && exists|
                                    v: Verdict<L, M, C>,
                                |
                                    {
                                        &&& #[trigger] raw.ensures((&s,), Ok(v))
                                        &&& lsnr == v.lsnr
                                        &&& carried_out(
                                            *final(self),
                                            v,
                                            counted,
                                            ch,
                                            nb_df,
                                            limit,
                                            zero,
                                            spectrum@,
                                        )
                                    },
                            }
                        }
                }
            }),
    {
        if self.begin(quiet) {
            return Ok(Processed::Silent);
        }
        let s = analyse();
        let copy = copy_spectrum(&s);
        assert(full(copy, self.n_freqs));
        self.accept(copy);
        proof {
            assert(taken_in(old(self).gained@, self.gained@, s)) by {
                assert(self.gained@.drop_last() =~= old(self).gained@.drop_first());
            }
            assert(taken_in(old(self).noisy@, self.noisy@, s));
        }
        if untouched {
            return Ok(Processed::Untouched);
        }
        let verdict = match raw(&s) {
            Ok(verdict) => verdict,
            Err(e) => return Err(e),
        };
        let ghost v = verdict;
        let Verdict { lsnr, mask, coefs } = verdict;
        proof {
            let k = self.df_order - 1;
            if self.conv_lookahead > 0 {
                assert(self.gained@.drop_last()[k] == old(self).gained@.drop_first()[k]);
            }
            assert(self.gained@[k]@.len() >= ch);
            assert forall|i: int| 0 <= i < self.df_order implies (#[trigger] self.noisy@[i])@.len()
                > 0 by {
                if i < self.noisy@.len() - 1 {
                    assert(self.noisy@.drop_last()[i] == old(self).noisy@.drop_first()[i]);
                    assert(old(self).noisy@[i + 1]@.len() > 0);
                }
            }
        }
        let mut spectrum = self.enhance(mask, &coefs, ch, nb_df, zero);
        let ghost plain = spectrum@;
        if let Some((keep, back)) = limit {
            proof {
                let d = self.df_order - self.lookahead - 1;
                if self.lookahead > 0 {
                    assert(self.noisy@.drop_last()[d] == old(self).noisy@.drop_first()[d]);
                }
                assert(self.noisy@[d]@.len() >= ch);
            }
            let noisy = self.delivered_noisy();
            mix_channels(&mut spectrum, noisy, ch, keep, back);
        }
        proof {
            assert(enhances(
                self.gained@,
                self.noisy@,
                self.df_order,
                v.mask,
                v.coefs,
                ch,
                nb_df,
                zero,
                plain,
            ));
            assert(raw.ensures((&s,), Ok(v)));
        }
        Ok(Processed::Enhanced { lsnr, spectrum })
    }
}

/// What comes out of a step, in so many words. The spectrum that leaves is the one that `df_order - 1` newer
/// ones stand behind. Where nothing was found to filter, it leaves as it is, whatever the channel. A deep
/// filter works on the first channel and its first `nb_df` bins alone: there each bin is the sum of that
/// bin in the first `df_order` noisy spectra, each times the coefficient of its own row.
pub proof fn lemma_enhanced_bin_by_bin<
    C: Copy + Add<Output = C> + Mul<Output = C>,
    F: Fn(&Vec<C>) -> Vec<C>,
>(
    value: spec_fn(C) -> int,
    gained: Seq<Vec<Vec<C>>>,
    noisy: Seq<Vec<Vec<C>>>,
    df_order: usize,
    mask: Option<F>,
    coefs: Option<Vec<Vec<C>>>,
    ch: usize,
    nb_df: usize,
    zero: C,
    enhanced: Seq<Vec<C>>,
    c: int,
    f: int,
)
    requires
        exact(value, zero),
        enhances(gained, noisy, df_order, mask, coefs, ch, nb_df, zero, enhanced),
        0 <= c < gained[df_order - 1]@.len(),
        0 <= f < enhanced[c]@.len(),
        coefs matches Some(k) ==> df_order <= k@.len(),
    ensures
        enhanced.len() == gained[df_order - 1]@.len(),
        (mask is None || c >= ch) && (coefs is None || c > 0 || f >= nb_df) ==> enhanced[c]@[f]
            == gained[df_order - 1]@[c]@[f],
        mask is Some && c < ch && (coefs is None || c > 0 || f >= nb_df) ==> exists|
            input: Vec<C>,
            output: Vec<C>,
        | #[trigger]
            mask->Some_0.ensures((&input,), output) && input@ == gained[df_order - 1]@[c]@ && output@[f]
                == enhanced[c]@[f],
        c == 0 && f < nb_df ==> (coefs matches Some(k) ==> value(enhanced[0]@[f]) == total(
            |i: int| value(noisy[i]@[0]@[f]) * value(k@[i]@[f]),
            df_order as nat,
        )),
{
    let (masked, rows) = choose|masked: Seq<Seq<C>>, rows: Seq<Vec<C>>|
        {
            &&& coefs is Some ==> rows.len() == df_order && forall|i: int|
                0 <= i < df_order ==> (#[trigger] rows[i])@ == noisy[i]@[0]@
            &&& #[trigger] enhanced_from(
                gained[df_order - 1],
                rows,
                mask,
                coefs,
                ch,
                nb_df,
                df_order,
                zero,
                masked,
                enhanced,
            )
        };
    assert(channel_masked(gained[df_order - 1]@[c], mask, c < ch, masked[c]));
    if coefs is Some && c == 0 && f < nb_df {
        let k = coefs->Some_0;
        let spectra = rows_of(rows);
        let weights = rows_of(k@);
        assert(tapped_after(spectra, weights, f, df_order as nat, zero, enhanced[0]@[f]));
        lemma_taps_weigh_their_own_rows(
            value,
            spectra,
            weights,
            f,
            df_order as nat,
            zero,
            enhanced[0]@[f],
        );
        let a = |i: int| value(spectra[i][f]) * value(weights[i][f]);
        let b = |i: int| value(noisy[i]@[0]@[f]) * value(k@[i]@[f]);
        assert forall|i: int| 0 <= i < df_order implies #[trigger] a(i) == b(i) by {
            assert(spectra[i] == rows[i]@);
            assert(weights[i] == k@[i]@);
        }
        lemma_total_same(a, b, df_order as nat);
    } else if coefs is Some && c == 0 {
        assert(enhanced[0]@[f] == masked[0][f]);
    }
}

/// Letting noise back in, in so many words: with a limit, every bin of a processed channel is the enhanced
/// bin times what is kept plus the noisy bin, of the same channel and frequency, times what is let back in;
/// without one, and in every other channel, nothing changes.
pub proof fn lemma_mixed_bin_by_bin<G, C: Add<Output = C> + Mul<G, Output = C>>(
    value: spec_fn(C) -> int,
    share: spec_fn(G) -> int,
    before: Seq<Vec<C>>,
    noisy: Vec<Vec<C>>,
    limit: Option<(G, G)>,
    ch: usize,
    after: Seq<Vec<C>>,
    c: int,
    f: int,
)
    requires
        forall|x: C, y: C, z: C| #[trigger] sum_gives(x, y, z) ==> value(z) == value(x) + value(y),
        forall|x: C, l: G, z: C| #[trigger]
            call_ensures(<C as Mul<G>>::mul, (x, l), z) ==> value(z) == value(x) * share(l),
        all_mixed(before, noisy, limit, ch, after),
        0 <= c < before.len(),
        0 <= f < before[c]@.len(),
    ensures
        after[c]@.len() == before[c]@.len(),
        limit is None || c >= ch || f >= noisy@[c]@.len() ==> after[c]@[f] == before[c]@[f],
        limit matches Some(l) ==> (c < ch && f < noisy@[c]@.len() ==> value(after[c]@[f]) == value(
            before[c]@[f],
        ) * share(l.0) + value(noisy@[c]@[f]) * share(l.1)),
{
    let _ = after[c];
    if c < ch && limit is Some {
        let l = limit->Some_0;
        assert(channel_mixed(before[c]@, noisy@[c]@, l.0, l.1, after[c]@));
        if f < noisy@[c]@.len() {
            assert(mixes(before[c]@[f], noisy@[c]@[f], l.0, l.1, after[c]@[f]));
            lemma_mix_adds_both_shares(
                value,
                share,
                before[c]@[f],
                noisy@[c]@[f],
                l.0,
                l.1,
                after[c]@[f],
            );
        }
    }
}

/// How long it has been quiet is the length of the run of quiet frames up to now: a loud frame ends every
/// run, and a quiet one makes it longer by one.
pub proof fn lemma_quiet_counts_the_run(counter: usize)
    ensures
        quiet_after(counter, false) == 0,
        quiet_after(counter, true) - counter == 1,
{
}

/// The longer of two buffers is long enough for both, and no longer than need be.
pub proof fn lemma_greatest(a: usize, b: usize)
    ensures
        greatest(a, b) >= a,
        greatest(a, b) >= b,
        greatest(a, b) == a || greatest(a, b) == b,
{
}

/// A frame that rolls in is the newest, the oldest goes, and every other one moves one place towards the
/// oldest.
pub proof fn lemma_rolling_moves_by_one<S>(frames: Seq<S>, newest: S, i: int)
    requires
        0 < frames.len(),
        0 <= i < frames.len(),
    ensures
        rolled(frames, newest).len() == frames.len(),
        rolled(frames, newest)[i] == (if i == frames.len() - 1 {
            newest
        } else {
            frames[i + 1]
        }),
{
}

/// What a verdict does to the count of quiet frames: one with a mask ends it, one without makes it longer by
/// one. Noise is let back in from the noisy spectrum that `lookahead` newer ones stand behind, and without a
/// limit the enhanced spectrum stays what it is.
pub proof fn lemma_verdict_carried_out<
    G,
    L,
    C: Copy + Add<Output = C> + Mul<Output = C> + Mul<G, Output = C>,
    M: Fn(&Vec<C>) -> Vec<C>,
>(
    state: NetworkState<C>,
    verdict: Verdict<L, M, C>,
    counted: int,
    ch: usize,
    nb_df: usize,
    limit: Option<(G, G)>,
    zero: C,
    enhanced: Seq<Vec<C>>,
)
    requires
        carried_out(state, verdict, counted, ch, nb_df, limit, zero, enhanced),
    ensures
        verdict.mask is Some ==> state.skip_counter == 0,
        verdict.mask is None ==> state.skip_counter == counted + 1,
        exists|plain: Seq<Vec<C>>|
            {
                &&& #[trigger] enhances(
                    state.gained@,
                    state.noisy@,
                    state.df_order,
                    verdict.mask,
                    verdict.coefs,
                    ch,
                    nb_df,
                    zero,
                    plain,
                )
                &&& enhanced.len() == plain.len()
                &&& forall|c: int|
                    0 <= c < plain.len() && (limit is None || c >= ch) ==> (#[trigger] enhanced[c])@
                        == plain[c]@
                &&& limit matches Some(l) ==> forall|c: int, f: int|
                    0 <= c < plain.len() && c < ch && 0 <= f < plain[c]@.len() && f
                        < state.noisy@[state.noisy@.len() - 1 - state.lookahead]@[c]@.len() ==> mixes(
                        plain[c]@[f],
                        state.noisy@[state.noisy@.len() - 1 - state.lookahead]@[c]@[f],
                        l.0,
                        l.1,
                        #[trigger] enhanced[c]@[f],
                    )
            },
{
    let plain = choose|plain: Seq<Vec<C>>|
        {
            &&& #[trigger] enhances(
                state.gained@,
                state.noisy@,
                state.df_order,
                verdict.mask,
                verdict.coefs,
                ch,
                nb_df,
                zero,
                plain,
            )
            &&& all_mixed(
                plain,
                state.noisy@[state.noisy@.len() - 1 - state.lookahead],
                limit,
                ch,
                enhanced,
            )
        };
    if let Some(l) = limit {
        assert forall|c: int, f: int|
            0 <= c < plain.len() && c < ch && 0 <= f < plain[c]@.len() && f
                < state.noisy@[state.noisy@.len() - 1 - state.lookahead]@[c]@.len() implies mixes(
            plain[c]@[f],
            state.noisy@[state.noisy@.len() - 1 - state.lookahead]@[c]@[f],
            l.0,
            l.1,
            #[trigger] enhanced[c]@[f],
        ) by {
            assert(channel_mixed(
                plain[c]@,
                state.noisy@[state.noisy@.len() - 1 - state.lookahead]@[c]@,
                l.0,
                l.1,
                enhanced[c]@,
            ));
        }
    }
}

/// How much is kept: of spectra to enhance as many as the filter and its lookahead take up together, of noisy
/// ones as many as the longer of the two needs, each with all its bins.
pub proof fn lemma_buffers_are_long_enough<C: Copy>(state: NetworkState<C>, i: int, c: int)
    requires
        state.wf(),
    ensures
        state.gained@.len() == state.df_order + state.conv_lookahead,
        state.noisy@.len() >= state.df_order,
        state.noisy@.len() >= state.lookahead,
        state.noisy@.len() == state.df_order || state.noisy@.len() == state.lookahead,
        0 <= i < state.gained@.len() && 0 <= c < state.gained@[i]@.len() ==> state.gained@[i]@[c]@.len()
            == state.n_freqs,
        0 <= i < state.noisy@.len() && 0 <= c < state.noisy@[i]@.len() ==> state.noisy@[i]@[c]@.len()
            == state.n_freqs,
{
    if 0 <= i < state.gained@.len() {
        assert(full(state.gained@[i], state.n_freqs));
    }
    if 0 <= i < state.noisy@.len() {
        assert(full(state.noisy@[i], state.n_freqs));
    }
}

/// A blank buffer is zero in every bin of every channel.
pub proof fn lemma_blank_is_zero<C>(spectrum: Vec<Vec<C>>, ch: usize, n_freqs: usize, zero: C, c: int, f: int)
    requires
        is_blank(spectrum, ch, n_freqs, zero),
        0 <= c < ch,
        0 <= f < n_freqs,
    ensures
        spectrum@.len() == ch,
        spectrum@[c]@.len() == n_freqs,
        spectrum@[c]@[f] == zero,
{
    let _ = spectrum@[c];
}

/// A spectrum that is taken in is the newest, and every other one moves one place towards the oldest.
pub proof fn lemma_spectrum_taken_in<C>(
    before: Seq<Vec<Vec<C>>>,
    after: Seq<Vec<Vec<C>>>,
    spectrum: Vec<Vec<C>>,
    i: int,
    c: int,
)
    requires
        taken_in(before, after, spectrum),
        0 < before.len(),
    ensures
        after.len() == before.len(),
        0 <= i < before.len() - 1 ==> after[i] == before[i + 1],
        after[after.len() - 1]@.len() == spectrum@.len(),
        0 <= c < spectrum@.len() ==> after[after.len() - 1]@[c]@ == spectrum@[c]@,
{
    if 0 <= i < before.len() - 1 {
        assert(after.drop_last()[i] == before.drop_first()[i]);
    }
    if 0 <= c < spectrum@.len() {
        assert(after.last()@[c]@ == spectrum@[c]@);
    }
}

/// What stays the same while the parameters do: everything but the buffers and the count of quiet frames.
pub proof fn lemma_all_but_the_buffers<C: Copy>(a: NetworkState<C>, b: NetworkState<C>)
    requires
        a.same_parameters(&b),
    ensures
        a == (NetworkState { gained: a.gained, noisy: a.noisy, skip_counter: a.skip_counter, ..b }),
{
}

/// A frame that rolls into nothing is all there is.
pub proof fn lemma_rolling_into_nothing<S>(newest: S)
    ensures
        rolled(Seq::<S>::empty(), newest) == seq![newest],
{
}

} // verus!
