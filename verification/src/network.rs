//! The bookkeeping around the denoising network: which of its stages run, what they remember from
//! frame to frame, and how spectra are lined up with each other.
//!
//! `T` is a number and `C` a bin of a spectrum; nothing here computes with either.
use vstd::prelude::*;

verus! {

/// Numbers in the hidden state of one recurrent layer.
pub const GRU_H_SIZE: usize = 512;

/// Quiet frames in a row after which the network is no longer asked.
pub const QUIET_FRAMES: usize = 5;

/// A complex number.
pub struct Complex<T> {
    pub re: T,
    pub im: T,
}

impl<T: Copy> Clone for Complex<T> {
    fn clone(&self) -> (c: Self)
        ensures
            c == *self,
    {
        *self
    }
}

impl<T: Copy> Copy for Complex<T> {

}

/// How the signal-to-noise ratio that the encoder has estimated compares to the thresholds.
#[derive(Clone, Copy, Debug, PartialEq, Eq, Structural)]
pub struct LsnrLevel {
    pub below_min: bool,
    pub above_erb: bool,
    pub above_df: bool,
}

/// Which stages are applied to a frame.
#[derive(Clone, Copy, Debug, PartialEq, Eq, Structural)]
pub struct Stages {
    /// The band gains that the ERB decoder computes.
    pub gains: bool,
    /// Gains of zero: the frame is all noise.
    pub gain_zeros: bool,
    /// The deep filter.
    pub df: bool,
}

/// The stages for a level: nothing but noise is muted, clean speech is left alone, and in between the
/// band gains apply, with the deep filter where the speech is not yet clean.
pub open spec fn stages_of(level: LsnrLevel) -> Stages {
    if level.below_min {
        Stages { gains: false, gain_zeros: true, df: false }
    } else if level.above_erb {
        Stages { gains: false, gain_zeros: false, df: false }
    } else if level.above_df {
        Stages { gains: true, gain_zeros: false, df: false }
    } else {
        Stages { gains: true, gain_zeros: false, df: true }
    }
}

/// The stages for a level.
pub fn choose_stages(level: LsnrLevel) -> (stages: Stages)
    ensures
        stages == stages_of(level),
{
    if level.below_min {
        Stages { gains: false, gain_zeros: true, df: false }
    } else if level.above_erb {
        Stages { gains: false, gain_zeros: false, df: false }
    } else if level.above_df {
        Stages { gains: true, gain_zeros: false, df: false }
    } else {
        Stages { gains: true, gain_zeros: false, df: true }
    }
}

/// What is applied to a frame: noise alone is muted and nothing else runs; a frame that is cleaner than the
/// gains are for is left as it is; any other gets the gains; and the deep filter runs on those of them that
/// are not cleaner than it is for.
pub proof fn lemma_stages_follow_the_noise(level: LsnrLevel)
    ensures
        stages_of(level).gain_zeros == level.below_min,
        stages_of(level).gains == (!level.below_min && !level.above_erb),
        stages_of(level).df == (!level.below_min && !level.above_erb && !level.above_df),
{
}

/// A frame is never both muted and filtered, and the deep filter never runs without the band gains.
pub proof fn lemma_stages_exclusive(level: LsnrLevel)
    ensures
        !(stages_of(level).gains && stages_of(level).gain_zeros),
        stages_of(level).df ==> stages_of(level).gains,
{
}

/// The hidden states of the recurrent layers.
pub struct GruStates<T> {
    pub enc: Vec<T>,
    pub erb: Vec<T>,
    pub erb2: Vec<T>,
    pub df: Vec<T>,
    pub df2: Vec<T>,
    pub df3: Vec<T>,
}

/// `n` times `value`.
pub open spec fn repeated<T>(value: T, n: nat) -> Seq<T> {
    Seq::new(n, |i: int| value)
}

/// `n` times `value`.
pub fn repeat<T: Copy>(value: T, n: usize) -> (v: Vec<T>)
    ensures
        v@ == repeated(value, n as nat),
{
    let mut v: Vec<T> = Vec::with_capacity(n);
    while v.len() < n
        invariant
            v@.len() <= n,
            v@ == repeated(value, v@.len()),
        decreases n - v@.len(),
    {
        v.push(value);
        assert(v@ =~= repeated(value, v@.len()));
    }
    v
}

impl<T> GruStates<T> {
    /// Every layer has a hidden state of the right size.
    pub open spec fn wf(&self) -> bool {
        &&& self.enc@.len() == GRU_H_SIZE
        &&& self.erb@.len() == GRU_H_SIZE
        &&& self.erb2@.len() == GRU_H_SIZE
        &&& self.df@.len() == GRU_H_SIZE
        &&& self.df2@.len() == GRU_H_SIZE
        &&& self.df3@.len() == GRU_H_SIZE
    }

    /// Every number of every layer is `zero`.
    pub open spec fn all(&self, zero: T) -> bool {
        let blank = repeated(zero, GRU_H_SIZE as nat);
        &&& self.enc@ == blank
        &&& self.erb@ == blank
        &&& self.erb2@ == blank
        &&& self.df@ == blank
        &&& self.df2@ == blank
        &&& self.df3@ == blank
    }
}

impl<T: Copy> GruStates<T> {
    /// Layers that remember nothing.
    pub fn new(zero: T) -> (states: Self)
        ensures
            states.wf(),
            states.all(zero),
    {
        GruStates {
            enc: repeat(zero, GRU_H_SIZE),
            erb: repeat(zero, GRU_H_SIZE),
            erb2: repeat(zero, GRU_H_SIZE),
            df: repeat(zero, GRU_H_SIZE),
            df2: repeat(zero, GRU_H_SIZE),
            df3: repeat(zero, GRU_H_SIZE),
        }
    }
}

/// What the encoder makes of a frame; `V` is what it hands on to the decoders.
pub struct Encoded<T, V> {
    /// The estimated signal-to-noise ratio.
    pub lsnr: T,
    pub level: LsnrLevel,
    /// The new hidden state of its layer.
    pub hidden: Vec<T>,
    pub outputs: V,
}

/// What the ERB decoder makes of a frame.
pub struct ErbDecoded<T> {
    /// One gain per band.
    pub gains: Vec<T>,
    /// The new hidden states of its layers.
    pub hidden: Vec<T>,
    pub hidden2: Vec<T>,
}

/// What the deep-filter decoder makes of a frame.
pub struct DfDecoded<T> {
    /// Coefficients, bin by bin: for each of `bins` bins `width` numbers, the real and imaginary
    /// parts of one tap after the other.
    pub coefs: Vec<T>,
    pub bins: usize,
    pub width: usize,
    /// The new hidden states of its layers.
    pub hidden: Vec<T>,
    pub hidden2: Vec<T>,
    pub hidden3: Vec<T>,
}

impl<T> DfDecoded<T> {
    /// The coefficients have the size that is said.
    pub open spec fn wf(&self) -> bool {
        self.coefs@.len() >= self.bins * self.width
    }
}

/// Coefficient `tap` of bin `bin` in the decoder's layout, where it is there.
pub open spec fn coef_at<T>(
    data: Seq<T>,
    bins: usize,
    width: usize,
    zero: T,
    tap: int,
    bin: int,
) -> Complex<T> {
    if bin < bins && tap < width / 2 {
        Complex { re: data[bin * width + 2 * tap], im: data[bin * width + 2 * tap + 1] }
    } else {
        Complex { re: zero, im: zero }
    }
}

/// The coefficients tap by tap, for `df_order` taps and `nb_df` bins; what the decoder did not give
/// is zero.
pub open spec fn taps_of<T>(
    data: Seq<T>,
    bins: usize,
    width: usize,
    zero: T,
    df_order: usize,
    nb_df: usize,
    taps: Seq<Vec<Complex<T>>>,
) -> bool {
    &&& taps.len() == df_order
    &&& forall|k: int| 0 <= k < df_order ==> (#[trigger] taps[k])@.len() == nb_df
    &&& forall|k: int, f: int|
        0 <= k < df_order && 0 <= f < nb_df ==> #[trigger] taps[k]@[f] == coef_at(
            data,
            bins,
            width,
            zero,
            k,
            f,
        )
}

/// Turns the decoder's coefficients, which run bin by bin, into one row per tap.
pub fn arrange_taps<T: Copy>(
    data: &Vec<T>,
    bins: usize,
    width: usize,
    zero: T,
    df_order: usize,
    nb_df: usize,
) -> (taps: Vec<Vec<Complex<T>>>)
    requires
        data@.len() >= bins * width,
    ensures
        taps_of(data@, bins, width, zero, df_order, nb_df, taps@),
        forall|k: int, f: int|
            0 <= k < df_order && 0 <= f < nb_df && f < bins && 2 * k + 1 < width ==> (
            #[trigger] taps@[k]@[f]).re == data@[f * width + 2 * k] && taps@[k]@[f].im
                == data@[f * width + 2 * k + 1],
        forall|k: int, f: int|
            0 <= k < df_order && 0 <= f < nb_df && (f >= bins || 2 * k + 1 >= width) ==> (
            #[trigger] taps@[k]@[f]).re == zero && taps@[k]@[f].im == zero,
{
    let mut taps: Vec<Vec<Complex<T>>> = Vec::new();
    let mut k: usize = 0;
    while k < df_order
        invariant
            k <= df_order,
            data@.len() >= bins * width,
            taps_of(data@, bins, width, zero, k, nb_df, taps@),
        decreases df_order - k,
    {
        let mut row: Vec<Complex<T>> = Vec::new();
        let mut f: usize = 0;
        while f < nb_df
            invariant
                f <= nb_df,
                row@.len() == f,
                data@.len() >= bins * width,
                forall|j: int|
                    0 <= j < f ==> #[trigger] row@[j] == coef_at(
                        data@,
                        bins,
                        width,
                        zero,
                        k as int,
                        j,
                    ),
            decreases nb_df - f,
        {
            if f < bins && k < width / 2 {
                assert(f * width + width <= bins * width) by (nonlinear_arith)
                    requires
                        f < bins,
                ;
                assert(f * width >= 0) by (nonlinear_arith);
                assert(data@.len() == data.len());
                let at: usize = f * width + k * 2;
                row.push(Complex { re: data[at], im: data[at + 1] });
            } else {
                row.push(Complex { re: zero, im: zero });
            }
            f += 1;
        }
        let ghost before = taps@;
        taps.push(row);
        assert forall|a: int, b: int| 0 <= a < k + 1 && 0 <= b < nb_df implies #[trigger] taps@[a]@[b]
            == coef_at(data@, bins, width, zero, a, b) by {
            if a < k {
                assert(taps@[a] == before[a]);
            }
        }
        k += 1;
    }
    taps
}

/// No coefficient that the decoder gives is lost, and none is made up: tap `k` of bin `f` is the pair of
/// numbers at twice `k` in the row of that bin, for every bin and tap that there is, and zero for any other.
pub proof fn lemma_no_coefficient_lost<T>(
    data: Seq<T>,
    bins: usize,
    width: usize,
    zero: T,
    df_order: usize,
    nb_df: usize,
    taps: Seq<Vec<Complex<T>>>,
)
    requires
        taps_of(data, bins, width, zero, df_order, nb_df, taps),
    ensures
        taps.len() == df_order,
        forall|k: int| 0 <= k < df_order ==> (#[trigger] taps[k])@.len() == nb_df,
        forall|k: int, f: int|
            0 <= k < df_order && 0 <= f < nb_df && f < bins && 2 * k + 1 < width ==> (
            #[trigger] taps[k]@[f]).re == data[f * width + 2 * k] && taps[k]@[f].im == data[f * width
                + 2 * k + 1],
        forall|k: int, f: int|
            0 <= k < df_order && 0 <= f < nb_df && (f >= bins || 2 * k + 1 >= width) ==> (
            #[trigger] taps[k]@[f]).re == zero && taps[k]@[f].im == zero,
{
}

/// Where the decoder gives as many bins and taps as are wanted, reading the rows back bin by bin, tap by
/// tap and part by part gives what it gave, number by number.
pub proof fn lemma_taps_read_back<T>(
    data: Seq<T>,
    bins: usize,
    width: usize,
    zero: T,
    df_order: usize,
    taps: Seq<Vec<Complex<T>>>,
    bin: int,
    i: int,
)
    requires
        taps_of(data, bins, width, zero, df_order, bins, taps),
        width == 2 * df_order,
        0 <= bin < bins,
        0 <= i < width,
    ensures
        i % 2 == 0 ==> data[bin * width + i] == taps[i / 2]@[bin].re,
        i % 2 == 1 ==> data[bin * width + i] == taps[i / 2]@[bin].im,
{
    let k = i / 2;
    assert(0 <= k < df_order && 2 * k + 1 < width);
    assert(taps[k]@[bin] == coef_at(data, bins, width, zero, k, bin));
}

/// The features of a spectrum: all real parts, then all imaginary parts.
pub open spec fn split_parts<T>(bins: Seq<Complex<T>>) -> Seq<T> {
    bins.map_values(|c: Complex<T>| c.re) + bins.map_values(|c: Complex<T>| c.im)
}

/// The features of a spectrum.
pub fn feature_parts<T: Copy>(bins: &Vec<Complex<T>>) -> (parts: Vec<T>)
    ensures
        parts@ == split_parts(bins@),
        parts@.len() == 2 * bins@.len(),
        forall|i: int| 0 <= i < bins@.len() ==> parts@[i] == (#[trigger] bins@[i]).re,
        forall|i: int|
            0 <= i < bins@.len() ==> parts@[bins@.len() + i] == (#[trigger] bins@[i]).im,
{
    let mut parts: Vec<T> = Vec::new();
    let mut i: usize = 0;
    while i < bins.len()
        invariant
            i <= bins@.len(),
            parts@ == bins@.map_values(|c: Complex<T>| c.re).take(i as int),
        decreases bins@.len() - i,
    {
        parts.push(bins[i].re);
        i += 1;
        assert(parts@ =~= bins@.map_values(|c: Complex<T>| c.re).take(i as int));
    }
    let ghost re = parts@;
    assert(re =~= bins@.map_values(|c: Complex<T>| c.re));
    let mut k: usize = 0;
    while k < bins.len()
        invariant
            k <= bins@.len(),
            parts@ == re + bins@.map_values(|c: Complex<T>| c.im).take(k as int),
        decreases bins@.len() - k,
    {
        parts.push(bins[k].im);
        k += 1;
        assert(parts@ =~= re + bins@.map_values(|c: Complex<T>| c.im).take(k as int));
    }
    assert(parts@ =~= split_parts(bins@));
    parts
}

/// What the network says of a frame.
pub struct RawOutput<T> {
    pub lsnr: T,
    /// One gain per band, where gains apply.
    pub gains: Option<Vec<T>>,
    /// The deep filter, one row of coefficients per tap, where it applies.
    pub coefs: Option<Vec<Vec<Complex<T>>>>,
}

/// Sizes that a frame is processed with.
#[derive(Clone, Copy, Debug, PartialEq, Eq, Structural)]
pub struct RawSizes {
    pub nb_erb: usize,
    pub nb_df: usize,
    pub df_order: usize,
}

/// The ERB stage has run as it should: where the gains apply the decoder was asked, with the hidden
/// states from before, and its answer was taken; else its layers are as they were.
pub open spec fn erb_stage<T, V, E, Erb>(
    before: GruStates<T>,
    after: GruStates<T>,
    encoded: Encoded<T, V>,
    erb: Erb,
    zero: T,
    nb_erb: usize,
    gains: Option<Vec<T>>,
) -> bool where Erb: FnOnce(&V, &Vec<T>, &Vec<T>) -> Result<ErbDecoded<T>, E> {
    let stages = stages_of(encoded.level);
    if stages.gains {
        exists|d: ErbDecoded<T>|
            {
                &&& #[trigger] erb.ensures((&encoded.outputs, &before.erb, &before.erb2), Ok(d))
                &&& gains == Some(d.gains)
                &&& after.erb == d.hidden
                &&& after.erb2 == d.hidden2
            }
    } else {
        &&& after.erb == before.erb
        &&& after.erb2 == before.erb2
        &&& match gains {
            Some(g) => stages.gain_zeros && g@ == repeated(zero, nb_erb as nat),
            None => !stages.gain_zeros,
        }
    }
}

/// The deep-filter stage has run as it should: where the filter applies the decoder was asked, with
/// the hidden states from before, and its answer was taken; else its layers are as they were.
pub open spec fn df_stage<T, V, E, Df>(
    before: GruStates<T>,
    after: GruStates<T>,
    encoded: Encoded<T, V>,
    df: Df,
    zero: T,
    sizes: RawSizes,
    coefs: Option<Vec<Vec<Complex<T>>>>,
) -> bool where Df: FnOnce(&V, &Vec<T>, &Vec<T>, &Vec<T>) -> Result<DfDecoded<T>, E> {
    if stages_of(encoded.level).df {
        exists|d: DfDecoded<T>|
            {
                &&& #[trigger] df.ensures(
                    (&encoded.outputs, &before.df, &before.df2, &before.df3),
                    Ok(d),
                )
                &&& coefs matches Some(c) && taps_of(
                    d.coefs@,
                    d.bins,
                    d.width,
                    zero,
                    sizes.df_order,
                    sizes.nb_df,
                    c@,
                )
                &&& after.df == d.hidden
                &&& after.df2 == d.hidden2
                &&& after.df3 == d.hidden3
            }
    } else {
        &&& coefs is None
        &&& after.df == before.df
        &&& after.df2 == before.df2
        &&& after.df3 == before.df3
    }
}

/// The layers of both decoders are as they were.
pub open spec fn decoders_kept<T>(before: GruStates<T>, after: GruStates<T>) -> bool {
    &&& after.erb == before.erb
    &&& after.erb2 == before.erb2
    &&& after.df == before.df
    &&& after.df2 == before.df2
    &&& after.df3 == before.df3
}

/// Where a frame fails: the encoder, and then nothing changes; the ERB decoder, and then the encoder
/// remembers the frame; or the deep-filter decoder, and then the other two do.
pub open spec fn failed_at<T, V, E, Enc, Erb, Df>(
    before: GruStates<T>,
    after: GruStates<T>,
    enc: Enc,
    erb: Erb,
    df: Df,
    error: E,
) -> bool where
    Enc: FnOnce(&Vec<T>) -> Result<Encoded<T, V>, E>,
    Erb: FnOnce(&V, &Vec<T>, &Vec<T>) -> Result<ErbDecoded<T>, E>,
    Df: FnOnce(&V, &Vec<T>, &Vec<T>, &Vec<T>) -> Result<DfDecoded<T>, E>,
 {
    ||| enc.ensures((&before.enc,), Err(error)) && after == before
    ||| exists|e: Encoded<T, V>|
        {
            &&& #[trigger] enc.ensures((&before.enc,), Ok(e))
            &&& after.enc == e.hidden
            &&& {
                ||| stages_of(e.level).gains && erb.ensures(
                    (&e.outputs, &before.erb, &before.erb2),
                    Err(error),
                ) && decoders_kept(before, after)
                ||| stages_of(e.level).df && df.ensures(
                    (&e.outputs, &before.df, &before.df2, &before.df3),
                    Err(error),
                ) && after.df == before.df && after.df2 == before.df2 && after.df3 == before.df3
                    && exists|d: ErbDecoded<T>|
                    {
                        &&& #[trigger] erb.ensures((&e.outputs, &before.erb, &before.erb2), Ok(d))
                        &&& after.erb == d.hidden
                        &&& after.erb2 == d.hidden2
                    }
            }
        }
}

/// Runs the network on one frame. The encoder estimates how noisy the frame is, and that decides which
/// of the two decoders are asked. Each layer remembers the hidden state that its last run has given.
pub fn process_raw<T, V, E, Enc, Erb, Df>(
    states: &mut GruStates<T>,
    enc: Enc,
    erb: Erb,
    df: Df,
    zero: T,
    sizes: RawSizes,
) -> (output: Result<RawOutput<T>, E>) where
    T: Copy,
    Enc: FnOnce(&Vec<T>) -> Result<Encoded<T, V>, E>,
    Erb: FnOnce(&V, &Vec<T>, &Vec<T>) -> Result<ErbDecoded<T>, E>,
    Df: FnOnce(&V, &Vec<T>, &Vec<T>, &Vec<T>) -> Result<DfDecoded<T>, E>,

    requires
        old(states).wf(),
        enc.requires((&old(states).enc,)),
        forall|e: Encoded<T, V>| #[trigger]
            enc.ensures((&old(states).enc,), Ok(e)) && stages_of(e.level).gains ==> erb.requires(
                (&e.outputs, &old(states).erb, &old(states).erb2),
            ),
        forall|e: Encoded<T, V>| #[trigger]
            enc.ensures((&old(states).enc,), Ok(e)) && stages_of(e.level).df ==> df.requires(
                (&e.outputs, &old(states).df, &old(states).df2, &old(states).df3),
            ),
        forall|h: &Vec<T>, e: Encoded<T, V>| #[trigger]
            enc.ensures((h,), Ok(e)) ==> e.hidden@.len() == GRU_H_SIZE,
        forall|v: &V, a: &Vec<T>, b: &Vec<T>, d: ErbDecoded<T>| #[trigger]
            erb.ensures((v, a, b), Ok(d)) ==> d.hidden@.len() == GRU_H_SIZE && d.hidden2@.len()
                == GRU_H_SIZE,
        forall|v: &V, a: &Vec<T>, b: &Vec<T>, c: &Vec<T>, d: DfDecoded<T>| #[trigger]
            df.ensures((v, a, b, c), Ok(d)) ==> d.wf() && d.hidden@.len() == GRU_H_SIZE
                && d.hidden2@.len() == GRU_H_SIZE && d.hidden3@.len() == GRU_H_SIZE,
    ensures
        final(states).wf(),
        output matches Ok(out) ==> exists|e: Encoded<T, V>|
            {
                &&& #[trigger] enc.ensures((&old(states).enc,), Ok(e))
                &&& out.lsnr == e.lsnr
                &&& final(states).enc == e.hidden
                &&& erb_stage(*old(states), *final(states), e, erb, zero, sizes.nb_erb, out.gains)
                &&& df_stage(*old(states), *final(states), e, df, zero, sizes, out.coefs)
            },
        output matches Err(error) ==> failed_at(
            *old(states),
            *final(states),
            enc,
            erb,
            df,
            error,
        ),
{
    let Encoded { lsnr, level, hidden, outputs } = match enc(&states.enc) {
        Ok(e) => e,
        Err(error) => return Err(error),
    };
    states.enc = hidden;
    let stages = choose_stages(level);
    let mut gains: Option<Vec<T>> = None;
    if stages.gains {
        match erb(&outputs, &states.erb, &states.erb2) {
            Ok(d) => {
                let ErbDecoded { gains: g, hidden: h, hidden2: h2 } = d;
                gains = Some(g);
                states.erb = h;
                states.erb2 = h2;
            },
            Err(error) => {
                return Err(error);
            },
        }
    } else if stages.gain_zeros {
        gains = Some(repeat(zero, sizes.nb_erb));
    }
    let mut coefs: Option<Vec<Vec<Complex<T>>>> = None;
    if stages.df {
        match df(&outputs, &states.df, &states.df2, &states.df3) {
            Ok(d) => {
                let DfDecoded { coefs: c, bins, width, hidden: h, hidden2: h2, hidden3: h3 } = d;
                coefs = Some(arrange_taps(&c, bins, width, zero, sizes.df_order, sizes.nb_df));
                states.df = h;
                states.df2 = h2;
                states.df3 = h3;
            },
            Err(error) => {
                return Err(error);
            },
        }
    }
    Ok(RawOutput { lsnr, gains, coefs })
}

/// Each layer remembers what its own run has given, and a decoder that was not asked remembers what it did
/// before. Silence is all-zero gains, and where the audio passes there are none.
pub proof fn lemma_layers_keep_apart<T, V, E, Erb, Df>(
    before: GruStates<T>,
    after: GruStates<T>,
    encoded: Encoded<T, V>,
    erb: Erb,
    df: Df,
    zero: T,
    sizes: RawSizes,
    gains: Option<Vec<T>>,
    coefs: Option<Vec<Vec<Complex<T>>>>,
) where
    Erb: FnOnce(&V, &Vec<T>, &Vec<T>) -> Result<ErbDecoded<T>, E>,
    Df: FnOnce(&V, &Vec<T>, &Vec<T>, &Vec<T>) -> Result<DfDecoded<T>, E>,

    requires
        erb_stage(before, after, encoded, erb, zero, sizes.nb_erb, gains),
        df_stage(before, after, encoded, df, zero, sizes, coefs),
    ensures
        stages_of(encoded.level).gains ==> exists|d: ErbDecoded<T>| #[trigger]
            erb.ensures((&encoded.outputs, &before.erb, &before.erb2), Ok(d)) && gains == Some(d.gains)
                && after.erb == d.hidden && after.erb2 == d.hidden2,
        !stages_of(encoded.level).gains ==> after.erb == before.erb && after.erb2 == before.erb2,
        !stages_of(encoded.level).gains && stages_of(encoded.level).gain_zeros ==> (
        gains matches Some(g) && g@.len() == sizes.nb_erb && forall|b: int|
            0 <= b < sizes.nb_erb ==> #[trigger] g@[b] == zero),
        !stages_of(encoded.level).gains && !stages_of(encoded.level).gain_zeros ==> gains is None,
        stages_of(encoded.level).df ==> exists|d: DfDecoded<T>| #[trigger]
            df.ensures((&encoded.outputs, &before.df, &before.df2, &before.df3), Ok(d)) && after.df
                == d.hidden && after.df2 == d.hidden2 && after.df3 == d.hidden3,
        !stages_of(encoded.level).df ==> coefs is None && after.df == before.df && after.df2 == before.df2
            && after.df3 == before.df3,
{
}

/// What a frame that fails leaves behind: the deep filter remembers nothing of it, and where the encoder
/// fails no layer does.
pub proof fn lemma_failure_leaves_the_filter_alone<T, V, E, Enc, Erb, Df>(
    before: GruStates<T>,
    after: GruStates<T>,
    enc: Enc,
    erb: Erb,
    df: Df,
    error: E,
) where
    Enc: FnOnce(&Vec<T>) -> Result<Encoded<T, V>, E>,
    Erb: FnOnce(&V, &Vec<T>, &Vec<T>) -> Result<ErbDecoded<T>, E>,
    Df: FnOnce(&V, &Vec<T>, &Vec<T>, &Vec<T>) -> Result<DfDecoded<T>, E>,

    requires
        failed_at(before, after, enc, erb, df, error),
    ensures
        after.df == before.df,
        after.df2 == before.df2,
        after.df3 == before.df3,
        (forall|e: Encoded<T, V>| !(#[trigger] enc.ensures((&before.enc,), Ok(e)))) ==> after == before
            && enc.ensures((&before.enc,), Err(error)),
        after != before ==> exists|e: Encoded<T, V>| #[trigger]
            enc.ensures((&before.enc,), Ok(e)) && after.enc == e.hidden,
{
}

} // verus!
