//! What the network reads of a spectrum: the level of every band, and the shape of the lowest bins, each
//! relative to its recent mean.
//!
//! The functions are generic in the number type `T`, as those of [`crate::dsp`] are; logarithms, roots and
//! weights come in as functions.
use vstd::prelude::*;
use std::ops::{Add, Mul};

use crate::config::{DF_BINS, ERB_BANDS, FREQ_BINS};
use crate::dsp::{
    accumulate, accumulates, adds, exact, multiplies, product_gives, sum_gives, total,
};
use crate::network::{repeat, repeated};

verus! {

/// The recent mean of every band and of every low bin.
pub struct FeatureState<T> {
    pub erb_ma: Vec<T>,
    pub spec_ma: Vec<T>,
}

impl<T> FeatureState<T> {
    /// There is a mean for every band and every low bin.
    pub open spec fn wf(&self) -> bool {
        &&& self.erb_ma@.len() == ERB_BANDS
        &&& self.spec_ma@.len() == DF_BINS
    }
}

impl<T: Copy> FeatureState<T> {
    /// Means of nothing.
    pub fn new(zero: T) -> (state: Self)
        ensures
            state.wf(),
            state.erb_ma@ == repeated(zero, ERB_BANDS as nat),
            state.spec_ma@ == repeated(zero, DF_BINS as nat),
    {
        FeatureState { erb_ma: repeat(zero, ERB_BANDS), spec_ma: repeat(zero, DF_BINS) }
    }

    /// Forgets everything.
    pub fn reset(&mut self, zero: T)
        ensures
            final(self).wf(),
            final(self).erb_ma@ == repeated(zero, ERB_BANDS as nat),
            final(self).spec_ma@ == repeated(zero, DF_BINS as nat),
    {
        *self = FeatureState::new(zero);
    }
}

/// Whether `power` is what `re * re + im * im` gives.
pub open spec fn bin_power<T: Add<Output = T> + Mul<Output = T>>(re: T, im: T, power: T) -> bool {
    exists|p: T, q: T| #[trigger]
        product_gives(re, re, p) && #[trigger] product_gives(im, im, q) && sum_gives(p, q, power)
}

/// Whether a bin with this weight takes the power of a band from `prev` to `power`.
pub open spec fn power_step<T: Add<Output = T> + Mul<Output = T>>(
    prev: T,
    re: T,
    im: T,
    weight: T,
    power: T,
) -> bool {
    exists|p: T| #[trigger] bin_power(re, im, p) && accumulates(prev, p, weight, power)
}

/// Whether `power` is what the first `n` bins contribute to band `b`, from `zero` on.
pub open spec fn power_after<T: Add<Output = T> + Mul<Output = T>>(
    reals: Seq<T>,
    imags: Seq<T>,
    fb: Seq<T>,
    b: int,
    n: nat,
    zero: T,
    power: T,
) -> bool
    decreases n,
{
    if n == 0 {
        power == zero
    } else {
        exists|prev: T|
            #[trigger] power_step(
                prev,
                reals[n - 1],
                imags[n - 1],
                fb[(n - 1) * ERB_BANDS + b],
                power,
            ) && power_after(reals, imags, fb, b, (n - 1) as nat, zero, prev)
    }
}

/// Computes the power of one band.
fn band_power<T: Copy + Add<Output = T> + Mul<Output = T>>(
    reals: &[T],
    imags: &[T],
    erb_fb: &[T],
    b: usize,
    zero: T,
) -> (power: T)
    requires
        adds::<T>(),
        multiplies::<T>(),
        b < ERB_BANDS,
        reals@.len() >= FREQ_BINS,
        imags@.len() >= FREQ_BINS,
        erb_fb@.len() >= FREQ_BINS * ERB_BANDS,
    ensures
        power_after(reals@, imags@, erb_fb@, b as int, FREQ_BINS as nat, zero, power),
{
    let mut power = zero;
    let mut f: usize = 0;
    while f < FREQ_BINS
        invariant
            f <= FREQ_BINS,
            adds::<T>(),
            multiplies::<T>(),
            b < ERB_BANDS,
            reals@.len() >= FREQ_BINS,
            imags@.len() >= FREQ_BINS,
            erb_fb@.len() >= FREQ_BINS * ERB_BANDS,
            power_after(reals@, imags@, erb_fb@, b as int, f as nat, zero, power),
        decreases FREQ_BINS - f,
    {
        let ghost prev = power;
        let re = reals[f];
        let im = imags[f];
        assert(call_requires(<T as Mul>::mul, (re, re)));
        let p = re * re;
        assert(product_gives(re, re, p));
        assert(call_requires(<T as Mul>::mul, (im, im)));
        let q = im * im;
        assert(product_gives(im, im, q));
        assert(call_requires(<T as Add>::add, (p, q)));
        let s = p + q;
        assert(sum_gives(p, q, s));
        assert(bin_power(re, im, s));
        power = accumulate(power, s, erb_fb[f * ERB_BANDS + b]);
        assert(power_step(
            prev,
            reals@[f as int],
            imags@[f as int],
            erb_fb@[f * ERB_BANDS + b],
            power,
        ));
        f += 1;
        assert(power_after(reals@, imags@, erb_fb@, b as int, (f - 1) as nat, zero, prev));
        assert(power_step(
            prev,
            reals@[f - 1],
            imags@[f - 1],
            erb_fb@[(f - 1) * ERB_BANDS + b],
            power,
        ));
    }
    power
}

/// Band `b`: its power in decibels updates the mean from `ma` to `new_ma`, and `feature` is how far it
/// lies from it.
pub open spec fn band_feature<
    T: Add<Output = T> + Mul<Output = T>,
    D: Fn(T) -> T,
    S: Fn(T, T) -> T,
    N: Fn(T, T) -> T,
>(
    reals: Seq<T>,
    imags: Seq<T>,
    fb: Seq<T>,
    b: int,
    zero: T,
    db: D,
    smooth: S,
    normalise: N,
    ma: T,
    new_ma: T,
    feature: T,
) -> bool {
    exists|power: T, x: T|
        {
            &&& power_after(reals, imags, fb, b, FREQ_BINS as nat, zero, power)
            &&& #[trigger] db.ensures((power,), x)
            &&& smooth.ensures((ma, x), new_ma)
            &&& normalise.ensures((x, new_ma), feature)
        }
}

/// The level of every band relative to its recent mean. `db` turns a power into decibels, `smooth` updates
/// a mean by a level, and `normalise` relates a level to its mean.
pub fn extract_erb_features<
    T: Copy + Add<Output = T> + Mul<Output = T>,
    D: Fn(T) -> T,
    S: Fn(T, T) -> T,
    N: Fn(T, T) -> T,
>(
    reals: &[T],
    imags: &[T],
    erb_fb: &[T],
    state: &mut FeatureState<T>,
    zero: T,
    db: D,
    smooth: S,
    normalise: N,
) -> (features: Vec<T>)
    requires
        adds::<T>(),
        multiplies::<T>(),
        reals@.len() >= FREQ_BINS,
        imags@.len() >= FREQ_BINS,
        erb_fb@.len() >= FREQ_BINS * ERB_BANDS,
        old(state).wf(),
        forall|x: T| #[trigger] db.requires((x,)),
        forall|x: T, y: T| #[trigger] smooth.requires((x, y)),
        forall|x: T, y: T| #[trigger] normalise.requires((x, y)),
    ensures
        final(state).wf(),
        final(state).spec_ma == old(state).spec_ma,
        features@.len() == ERB_BANDS,
        forall|b: int|
            0 <= b < ERB_BANDS ==> band_feature(
                reals@,
                imags@,
                erb_fb@,
                b,
                zero,
                db,
                smooth,
                normalise,
                old(state).erb_ma@[b],
                final(state).erb_ma@[b],
                #[trigger] features@[b],
            ),
{
    let mut features: Vec<T> = Vec::with_capacity(ERB_BANDS);
    let mut b: usize = 0;
    while b < ERB_BANDS
        invariant
            b <= ERB_BANDS,
            adds::<T>(),
            multiplies::<T>(),
            reals@.len() >= FREQ_BINS,
            imags@.len() >= FREQ_BINS,
            erb_fb@.len() >= FREQ_BINS * ERB_BANDS,
            state.wf(),
            state.spec_ma == old(state).spec_ma,
            old(state).wf(),
            forall|x: T| #[trigger] db.requires((x,)),
            forall|x: T, y: T| #[trigger] smooth.requires((x, y)),
            forall|x: T, y: T| #[trigger] normalise.requires((x, y)),
            features@.len() == b,
            forall|j: int|
                0 <= j < b ==> band_feature(
                    reals@,
                    imags@,
                    erb_fb@,
                    j,
                    zero,
                    db,
                    smooth,
                    normalise,
                    old(state).erb_ma@[j],
                    state.erb_ma@[j],
                    #[trigger] features@[j],
                ),
            forall|j: int| b <= j < ERB_BANDS ==> state.erb_ma@[j] == old(state).erb_ma@[j],
        decreases ERB_BANDS - b,
    {
        let power = band_power(reals, imags, erb_fb, b, zero);
        let x = db(power);
        let ma = state.erb_ma[b];
        let new_ma = smooth(ma, x);
        state.erb_ma.set(b, new_ma);
        let feature = normalise(x, new_ma);
        assert(band_feature(
            reals@,
            imags@,
            erb_fb@,
            b as int,
            zero,
            db,
            smooth,
            normalise,
            ma,
            new_ma,
            feature,
        ));
        features.push(feature);
        b += 1;
    }
    features
}

/// A low bin: its magnitude updates the mean from `ma` to `new_ma`, and the bin is scaled by what that mean
/// asks for.
pub open spec fn bin_feature<
    T: Mul<Output = T>,
    M: Fn(T, T) -> T,
    S: Fn(T, T) -> T,
    C: Fn(T) -> T,
>(
    re: T,
    im: T,
    magnitude: M,
    smooth: S,
    scale: C,
    ma: T,
    new_ma: T,
    out_re: T,
    out_im: T,
) -> bool {
    exists|m: T, s: T|
        {
            &&& #[trigger] magnitude.ensures((re, im), m)
            &&& smooth.ensures((ma, m), new_ma)
            &&& #[trigger] scale.ensures((new_ma,), s)
            &&& product_gives(re, s, out_re)
            &&& product_gives(im, s, out_im)
        }
}

/// The lowest bins, each scaled by its recent mean: all real parts, then all imaginary parts. `magnitude`
/// is that of a bin, `smooth` updates a mean by a magnitude, and `scale` is the factor for a mean.
pub fn extract_spec_features<
    T: Copy + Mul<Output = T>,
    M: Fn(T, T) -> T,
    S: Fn(T, T) -> T,
    C: Fn(T) -> T,
>(
    reals: &[T],
    imags: &[T],
    state: &mut FeatureState<T>,
    magnitude: M,
    smooth: S,
    scale: C,
) -> (features: Vec<T>)
    requires
        multiplies::<T>(),
        reals@.len() >= DF_BINS,
        imags@.len() >= DF_BINS,
        old(state).wf(),
        forall|x: T, y: T| #[trigger] magnitude.requires((x, y)),
        forall|x: T, y: T| #[trigger] smooth.requires((x, y)),
        forall|x: T| #[trigger] scale.requires((x,)),
    ensures
        final(state).wf(),
        final(state).erb_ma == old(state).erb_ma,
        features@.len() == 2 * DF_BINS,
        forall|f: int|
            0 <= f < DF_BINS ==> bin_feature(
                reals@[f],
                imags@[f],
                magnitude,
                smooth,
                scale,
                old(state).spec_ma@[f],
                final(state).spec_ma@[f],
                #[trigger] features@[f],
                features@[DF_BINS + f],
            ),
{
    let mut out_re: Vec<T> = Vec::with_capacity(2 * DF_BINS);
    let mut out_im: Vec<T> = Vec::with_capacity(DF_BINS);
    let mut f: usize = 0;
    while f < DF_BINS
        invariant
            f <= DF_BINS,
            multiplies::<T>(),
            reals@.len() >= DF_BINS,
            imags@.len() >= DF_BINS,
            state.wf(),
            old(state).wf(),
            state.erb_ma == old(state).erb_ma,
            forall|x: T, y: T| #[trigger] magnitude.requires((x, y)),
            forall|x: T, y: T| #[trigger] smooth.requires((x, y)),
            forall|x: T| #[trigger] scale.requires((x,)),
            out_re@.len() == f,
            out_im@.len() == f,
            forall|j: int|
                0 <= j < f ==> bin_feature(
                    reals@[j],
                    imags@[j],
                    magnitude,
                    smooth,
                    scale,
                    old(state).spec_ma@[j],
                    state.spec_ma@[j],
                    #[trigger] out_re@[j],
                    out_im@[j],
                ),
            forall|j: int| f <= j < DF_BINS ==> state.spec_ma@[j] == old(state).spec_ma@[j],
        decreases DF_BINS - f,
    {
        let re = reals[f];
        let im = imags[f];
        let m = magnitude(re, im);
        let ma = state.spec_ma[f];
        let new_ma = smooth(ma, m);
        state.spec_ma.set(f, new_ma);
        let s = scale(new_ma);
        assert(call_requires(<T as Mul>::mul, (re, s)));
        let a = re * s;
        assert(product_gives(re, s, a));
        assert(call_requires(<T as Mul>::mul, (im, s)));
        let b = im * s;
        assert(product_gives(im, s, b));
        assert(bin_feature(re, im, magnitude, smooth, scale, ma, new_ma, a, b));
        out_re.push(a);
        out_im.push(b);
        f += 1;
    }
    let ghost low = out_re@;
    let ghost high = out_im@;
    out_re.append(&mut out_im);
    assert forall|j: int| 0 <= j < DF_BINS implies bin_feature(
        reals@[j],
        imags@[j],
        magnitude,
        smooth,
        scale,
        old(state).spec_ma@[j],
        state.spec_ma@[j],
        #[trigger] out_re@[j],
        out_re@[DF_BINS + j],
    ) by {
        assert(out_re@[j] == low[j]);
        assert(out_re@[DF_BINS + j] == high[j]);
    }
    out_re
}

/// What the first `n` bins have added to the power of a band.
proof fn lemma_power_adds_up<T: Add<Output = T> + Mul<Output = T>>(
    value: spec_fn(T) -> int,
    reals: Seq<T>,
    imags: Seq<T>,
    fb: Seq<T>,
    b: int,
    n: nat,
    zero: T,
    power: T,
    term: spec_fn(int) -> int,
)
    requires
        exact(value, zero),
        power_after(reals, imags, fb, b, n, zero, power),
        forall|f: int|
            0 <= f < n ==> #[trigger] term(f) == (value(reals[f]) * value(reals[f]) + value(imags[f])
                * value(imags[f])) * value(fb[f * 32 + b]),
    ensures
        value(power) == total(term, n),
    decreases n,
{
    if n > 0 {
        let prev = choose|prev: T|
            #[trigger] power_step(
                prev,
                reals[n - 1],
                imags[n - 1],
                fb[(n - 1) * ERB_BANDS + b],
                power,
            ) && power_after(reals, imags, fb, b, (n - 1) as nat, zero, prev);
        lemma_power_adds_up(value, reals, imags, fb, b, (n - 1) as nat, zero, prev, term);
        let f = n - 1;
        assert(term(f) == (value(reals[f]) * value(reals[f]) + value(imags[f]) * value(imags[f]))
            * value(fb[f * 32 + b]));
        let p = choose|p: T| #[trigger]
            bin_power(reals[f], imags[f], p) && accumulates(prev, p, fb[f * 32 + b], power);
        assert(value(p) == value(reals[f]) * value(reals[f]) + value(imags[f]) * value(imags[f]));
    }
}

/// The feature of a band, in so many words: the power of all 481 bins, each weighed by its place `f * 32 + b`
/// in the bank, is made a level; the level moves the mean, and the feature is the level against the mean so
/// moved.
pub proof fn lemma_band_feature_weighs_all_bins<
    T: Add<Output = T> + Mul<Output = T>,
    D: Fn(T) -> T,
    S: Fn(T, T) -> T,
    N: Fn(T, T) -> T,
>(
    value: spec_fn(T) -> int,
    reals: Seq<T>,
    imags: Seq<T>,
    fb: Seq<T>,
    b: int,
    zero: T,
    db: D,
    smooth: S,
    normalise: N,
    ma: T,
    new_ma: T,
    feature: T,
)
    requires
        exact(value, zero),
        band_feature(reals, imags, fb, b, zero, db, smooth, normalise, ma, new_ma, feature),
    ensures
        exists|power: T, level: T|
            {
                &&& value(power) == total(
                    |f: int|
                        (value(reals[f]) * value(reals[f]) + value(imags[f]) * value(imags[f])) * value(
                            fb[f * 32 + b],
                        ),
                    481,
                )
                &&& #[trigger] db.ensures((power,), level)
                &&& smooth.ensures((ma, level), new_ma)
                &&& normalise.ensures((level, new_ma), feature)
            },
{
    let term = |f: int|
        (value(reals[f]) * value(reals[f]) + value(imags[f]) * value(imags[f])) * value(fb[f * 32 + b]);
    let (power, level) = choose|power: T, x: T|
        {
            &&& power_after(reals, imags, fb, b, FREQ_BINS as nat, zero, power)
            &&& #[trigger] db.ensures((power,), x)
            &&& smooth.ensures((ma, x), new_ma)
            &&& normalise.ensures((x, new_ma), feature)
        };
    lemma_power_adds_up(value, reals, imags, fb, b, 481, zero, power, term);
}

/// The feature of a bin is the bin itself, both parts scaled by the one factor that its own mean, moved by
/// its own magnitude, gives.
pub proof fn lemma_bin_feature_keeps_direction<
    T: Add<Output = T> + Mul<Output = T>,
    M: Fn(T, T) -> T,
    S: Fn(T, T) -> T,
    C: Fn(T) -> T,
>(
    value: spec_fn(T) -> int,
    zero: T,
    re: T,
    im: T,
    magnitude: M,
    smooth: S,
    scale: C,
    ma: T,
    new_ma: T,
    out_re: T,
    out_im: T,
)
    requires
        exact(value, zero),
        bin_feature(re, im, magnitude, smooth, scale, ma, new_ma, out_re, out_im),
    ensures
        exists|m: T| #[trigger] magnitude.ensures((re, im), m) && smooth.ensures((ma, m), new_ma),
        exists|s: T| #[trigger]
            scale.ensures((new_ma,), s) && value(out_re) == value(re) * value(s) && value(out_im)
                == value(im) * value(s),
        value(out_re) * value(im) == value(out_im) * value(re),
{
    let (m, s) = choose|m: T, s: T|
        {
            &&& #[trigger] magnitude.ensures((re, im), m)
            &&& smooth.ensures((ma, m), new_ma)
            &&& #[trigger] scale.ensures((new_ma,), s)
            &&& product_gives(re, s, out_re)
            &&& product_gives(im, s, out_im)
        };
    let (a, b, k) = (value(re), value(im), value(s));
    assert(a * k * b == b * k * a) by (nonlinear_arith);
}

} // verus!
