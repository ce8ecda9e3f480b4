//! Applying what the network has computed to spectra.
//!
//! The functions are generic in the number type `T`: what they state is which numbers are multiplied
//! and added, and in which order. What a sum or product is, is the number type's own affair; a result
//! `z` of `x + y` is one that `T`'s addition may give for `x` and `y`.
use vstd::prelude::*;
use std::ops::{Add, Mul, Sub};

use crate::config::{DF_BINS, DF_LOOKAHEAD, DF_ORDER, ERB_BANDS, FREQ_BINS};

verus! {

/// Whether `z` is what `x + y` gives.
pub open spec fn sum_gives<T: Add<Output = T>>(x: T, y: T, z: T) -> bool {
    call_ensures(<T as Add>::add, (x, y), z)
}

/// Whether `z` is what `x * y` gives.
pub open spec fn product_gives<T: Mul<Output = T>>(x: T, y: T, z: T) -> bool {
    call_ensures(<T as Mul>::mul, (x, y), z)
}

/// Whether `z` is what `x - y` gives.
pub open spec fn difference_gives<T: Sub<Output = T>>(x: T, y: T, z: T) -> bool {
    call_ensures(<T as Sub>::sub, (x, y), z)
}

/// Any two numbers can be added.
pub open spec fn adds<T: Add<Output = T>>() -> bool {
    forall|x: T, y: T| #[trigger] call_requires(<T as Add>::add, (x, y))
}

/// Any two numbers can be multiplied.
pub open spec fn multiplies<T: Mul<Output = T>>() -> bool {
    forall|x: T, y: T| #[trigger] call_requires(<T as Mul>::mul, (x, y))
}

/// Any two numbers can be subtracted.
pub open spec fn subtracts<T: Sub<Output = T>>() -> bool {
    forall|x: T, y: T| #[trigger] call_requires(<T as Sub>::sub, (x, y))
}

/// Whether `acc` is what `prev + x * y` gives.
pub open spec fn accumulates<T: Add<Output = T> + Mul<Output = T>>(prev: T, x: T, y: T, acc: T) -> bool {
    exists|p: T| #[trigger] product_gives(x, y, p) && sum_gives(prev, p, acc)
}

/// Computes `prev + x * y`.
pub fn accumulate<T: Copy + Add<Output = T> + Mul<Output = T>>(prev: T, x: T, y: T) -> (acc: T)
    requires
        adds::<T>(),
        multiplies::<T>(),
    ensures
        accumulates(prev, x, y, acc),
{
    assert(call_requires(<T as Mul>::mul, (x, y)));
    let p = x * y;
    assert(product_gives(x, y, p));
    assert(call_requires(<T as Add>::add, (prev, p)));
    prev + p
}

/// Whether `gain` is the gain of bin `f` once the first `b` bands were summed up, from `zero` on.
pub open spec fn gain_after<T: Add<Output = T> + Mul<Output = T>>(
    mask: Seq<T>,
    offset: int,
    inv_fb: Seq<T>,
    f: int,
    b: nat,
    zero: T,
    gain: T,
) -> bool
    decreases b,
{
    if b == 0 {
        gain == zero
    } else {
        exists|prev: T|
            #[trigger] accumulates(
                prev,
                mask[offset + b - 1],
                inv_fb[(b - 1) * FREQ_BINS + f],
                gain,
            ) && gain_after(mask, offset, inv_fb, f, (b - 1) as nat, zero, prev)
    }
}

/// Whether `gain` is the gain of bin `f` in frame `frame_idx`: the band gains of the frame, weighted
/// by how much of each band lies in the bin.
pub open spec fn bin_gain<T: Add<Output = T> + Mul<Output = T>>(
    mask: Seq<T>,
    inv_fb: Seq<T>,
    frame_idx: nat,
    f: int,
    zero: T,
    gain: T,
) -> bool {
    gain_after(mask, (frame_idx * ERB_BANDS) as int, inv_fb, f, ERB_BANDS as nat, zero, gain)
}

/// Computes the gain of one bin.
fn compute_gain<T: Copy + Add<Output = T> + Mul<Output = T>>(
    erb_mask: &[T],
    erb_inv_fb: &[T],
    frame_idx: usize,
    f: usize,
    zero: T,
) -> (gain: T)
    requires
        adds::<T>(),
        multiplies::<T>(),
        f < FREQ_BINS,
        frame_idx * ERB_BANDS + ERB_BANDS <= erb_mask@.len(),
        ERB_BANDS * FREQ_BINS <= erb_inv_fb@.len(),
    ensures
        bin_gain(erb_mask@, erb_inv_fb@, frame_idx as nat, f as int, zero, gain),
{
    assert(erb_mask@.len() == erb_mask.len());
    let mask_offset: usize = frame_idx * ERB_BANDS;
    let mut gain = zero;
    let mut b: usize = 0;
    while b < ERB_BANDS
        invariant
            b <= ERB_BANDS,
            adds::<T>(),
            multiplies::<T>(),
            f < FREQ_BINS,
            mask_offset == frame_idx * ERB_BANDS,
            mask_offset + ERB_BANDS <= erb_mask@.len() == erb_mask.len(),
            ERB_BANDS * FREQ_BINS <= erb_inv_fb@.len(),
            gain_after(
                erb_mask@,
                mask_offset as int,
                erb_inv_fb@,
                f as int,
                b as nat,
                zero,
                gain,
            ),
        decreases ERB_BANDS - b,
    {
        let ghost prev = gain;
        assert(b * FREQ_BINS + FREQ_BINS <= ERB_BANDS * FREQ_BINS) by (nonlinear_arith)
            requires
                b < ERB_BANDS,
        ;
        assert(b * FREQ_BINS >= 0) by (nonlinear_arith);
        assert(erb_inv_fb@.len() == erb_inv_fb.len());
        gain = accumulate(gain, erb_mask[mask_offset + b], erb_inv_fb[b * FREQ_BINS + f]);
        b += 1;
        assert(gain_after(
            erb_mask@,
            mask_offset as int,
            erb_inv_fb@,
            f as int,
            (b - 1) as nat,
            zero,
            prev,
        ));
        assert(accumulates(
            prev,
            erb_mask@[mask_offset + b - 1],
            erb_inv_fb@[(b - 1) * FREQ_BINS + f],
            gain,
        ));
    }
    gain
}

/// `gains` holds the gain of every bin in frame `frame_idx`.
pub open spec fn frame_gains<T: Add<Output = T> + Mul<Output = T>>(
    mask: Seq<T>,
    inv_fb: Seq<T>,
    frame_idx: nat,
    zero: T,
    gains: Seq<T>,
) -> bool {
    &&& gains.len() == FREQ_BINS
    &&& forall|f: int|
        0 <= f < FREQ_BINS ==> bin_gain(mask, inv_fb, frame_idx, f, zero, #[trigger] gains[f])
}

/// Both parts of every bin are multiplied by the bin's gain.
pub open spec fn multiplied<T: Mul<Output = T>>(
    gains: Seq<T>,
    reals: Seq<T>,
    imags: Seq<T>,
    new_reals: Seq<T>,
    new_imags: Seq<T>,
) -> bool {
    forall|f: int|
        0 <= f < FREQ_BINS ==> product_gives(reals[f], #[trigger] gains[f], new_reals[f])
            && product_gives(imags[f], gains[f], new_imags[f])
}

/// The gain of every bin in one frame.
pub fn erb_mask_to_gain<T: Copy + Add<Output = T> + Mul<Output = T>>(
    erb_mask: &[T],
    erb_inv_fb: &[T],
    frame_idx: usize,
    zero: T,
) -> (gains: Vec<T>)
    requires
        adds::<T>(),
        multiplies::<T>(),
        frame_idx * ERB_BANDS + ERB_BANDS <= erb_mask@.len(),
        ERB_BANDS * FREQ_BINS <= erb_inv_fb@.len(),
    ensures
        frame_gains(erb_mask@, erb_inv_fb@, frame_idx as nat, zero, gains@),
{
    let mut gains: Vec<T> = Vec::with_capacity(FREQ_BINS);
    let mut f: usize = 0;
    while f < FREQ_BINS
        invariant
            f <= FREQ_BINS,
            adds::<T>(),
            multiplies::<T>(),
            frame_idx * ERB_BANDS + ERB_BANDS <= erb_mask@.len(),
            ERB_BANDS * FREQ_BINS <= erb_inv_fb@.len(),
            gains@.len() == f,
            forall|j: int|
                0 <= j < f ==> bin_gain(
                    erb_mask@,
                    erb_inv_fb@,
                    frame_idx as nat,
                    j,
                    zero,
                    #[trigger] gains@[j],
                ),
        decreases FREQ_BINS - f,
    {
        let gain = compute_gain(erb_mask, erb_inv_fb, frame_idx, f, zero);
        gains.push(gain);
        f += 1;
    }
    gains
}

/// Multiplies every bin of a spectrum by its gain in frame `frame_idx`: the gains are such as
/// [`erb_mask_to_gain`] gives, and both parts of a bin are multiplied by the same one.
pub fn apply_erb_mask<T: Copy + Add<Output = T> + Mul<Output = T>>(
    reals: &mut Vec<T>,
    imags: &mut Vec<T>,
    erb_mask: &[T],
    erb_inv_fb: &[T],
    frame_idx: usize,
    zero: T,
)
    requires
        adds::<T>(),
        multiplies::<T>(),
        old(reals)@.len() >= FREQ_BINS,
        old(imags)@.len() >= FREQ_BINS,
        frame_idx * ERB_BANDS + ERB_BANDS <= erb_mask@.len(),
        ERB_BANDS * FREQ_BINS <= erb_inv_fb@.len(),
    ensures
        final(reals)@.len() == old(reals)@.len(),
        final(imags)@.len() == old(imags)@.len(),
        exists|gains: Seq<T>|
            {
                &&& #[trigger] frame_gains(
                    erb_mask@,
                    erb_inv_fb@,
                    frame_idx as nat,
                    zero,
                    gains,
                )
                &&& multiplied(
                    gains,
                    old(reals)@,
                    old(imags)@,
                    final(reals)@,
                    final(imags)@,
                )
            },
        forall|f: int|
            FREQ_BINS <= f < old(reals)@.len() ==> #[trigger] final(reals)@[f] == old(reals)@[f],
        forall|f: int|
            FREQ_BINS <= f < old(imags)@.len() ==> #[trigger] final(imags)@[f] == old(imags)@[f],
{
    let gains = erb_mask_to_gain(erb_mask, erb_inv_fb, frame_idx, zero);
    let mut f: usize = 0;
    while f < FREQ_BINS
        invariant
            f <= FREQ_BINS,
            multiplies::<T>(),
            reals@.len() == old(reals)@.len() >= FREQ_BINS,
            imags@.len() == old(imags)@.len() >= FREQ_BINS,
            gains@.len() == FREQ_BINS,
            forall|j: int|
                0 <= j < f ==> product_gives(old(reals)@[j], #[trigger] gains@[j], reals@[j])
                    && product_gives(old(imags)@[j], gains@[j], imags@[j]),
            forall|j: int| f <= j < old(reals)@.len() ==> #[trigger] reals@[j] == old(reals)@[j],
            forall|j: int| f <= j < old(imags)@.len() ==> #[trigger] imags@[j] == old(imags)@[j],
        decreases FREQ_BINS - f,
    {
        let gain = gains[f];
        assert(call_requires(<T as Mul>::mul, (reals@[f as int], gain)));
        let re = reals[f] * gain;
        assert(call_requires(<T as Mul>::mul, (imags@[f as int], gain)));
        let im = imags[f] * gain;
        assert(product_gives(old(reals)@[f as int], gain, re));
        assert(product_gives(old(imags)@[f as int], gain, im));
        reals.set(f, re);
        imags.set(f, im);
        f += 1;
    }
}

/// Two numbers have one sum and one product.
pub open spec fn single_valued<T: Add<Output = T> + Mul<Output = T>>() -> bool {
    &&& forall|x: T, y: T, a: T, b: T| #[trigger]
        sum_gives(x, y, a) && #[trigger] sum_gives(x, y, b) ==> a == b
    &&& forall|x: T, y: T, a: T, b: T| #[trigger]
        product_gives(x, y, a) && #[trigger] product_gives(x, y, b) ==> a == b
}

/// A bin has one gain.
proof fn lemma_one_gain<T: Add<Output = T> + Mul<Output = T>>(
    mask: Seq<T>,
    offset: int,
    inv_fb: Seq<T>,
    f: int,
    b: nat,
    zero: T,
    x: T,
    y: T,
)
    requires
        single_valued::<T>(),
        gain_after(mask, offset, inv_fb, f, b, zero, x),
        gain_after(mask, offset, inv_fb, f, b, zero, y),
    ensures
        x == y,
    decreases b,
{
    if b > 0 {
        let m = mask[offset + b - 1];
        let w = inv_fb[(b - 1) * FREQ_BINS + f];
        let px = choose|prev: T| #[trigger]
            accumulates(prev, m, w, x) && gain_after(
                mask,
                offset,
                inv_fb,
                f,
                (b - 1) as nat,
                zero,
                prev,
            );
        let py = choose|prev: T| #[trigger]
            accumulates(prev, m, w, y) && gain_after(
                mask,
                offset,
                inv_fb,
                f,
                (b - 1) as nat,
                zero,
                prev,
            );
        lemma_one_gain(mask, offset, inv_fb, f, (b - 1) as nat, zero, px, py);
        let qx = choose|p: T| #[trigger] product_gives(m, w, p) && sum_gives(px, p, x);
        let qy = choose|p: T| #[trigger] product_gives(m, w, p) && sum_gives(py, p, y);
        assert(qx == qy);
    }
}

/// To apply a mask is to multiply both parts of every bin by the gains that the mask comes to: whatever
/// [`apply_erb_mask`] has multiplied by (`used`), and whatever gains [`erb_mask_to_gain`] gives for the same
/// mask and frame, they are the same, so each bin is its former value times its gain.
pub proof fn lemma_mask_is_gain<T: Add<Output = T> + Mul<Output = T>>(
    mask: Seq<T>,
    inv_fb: Seq<T>,
    frame_idx: nat,
    zero: T,
    reals: Seq<T>,
    imags: Seq<T>,
    masked_reals: Seq<T>,
    masked_imags: Seq<T>,
    used: Seq<T>,
    gains: Seq<T>,
)
    requires
        single_valued::<T>(),
        frame_gains(mask, inv_fb, frame_idx, zero, used),
        multiplied(used, reals, imags, masked_reals, masked_imags),
        frame_gains(mask, inv_fb, frame_idx, zero, gains),
    ensures
        used == gains,
        multiplied(gains, reals, imags, masked_reals, masked_imags),
{
    assert forall|f: int| 0 <= f < FREQ_BINS implies used[f] == gains[f] by {
        lemma_one_gain(
            mask,
            (frame_idx * ERB_BANDS) as int,
            inv_fb,
            f,
            ERB_BANDS as nat,
            zero,
            used[f],
            gains[f],
        );
    }
    assert(used =~= gains);
}

/// Whole numbers have one sum and one product.
pub proof fn lemma_whole_numbers_are_single_valued()
    ensures
        single_valued::<i64>(),
{
}

/// The bands before band `b` of two masks agree, and so do the gains they come to.
proof fn lemma_gain_reads_bands<T: Add<Output = T> + Mul<Output = T>>(
    a: Seq<T>,
    c: Seq<T>,
    offset: int,
    inv_fb: Seq<T>,
    f: int,
    b: nat,
    zero: T,
    gain: T,
)
    requires
        forall|k: int| offset <= k < offset + b ==> #[trigger] a[k] == c[k],
        gain_after(a, offset, inv_fb, f, b, zero, gain),
    ensures
        gain_after(c, offset, inv_fb, f, b, zero, gain),
    decreases b,
{
    if b > 0 {
        let prev = choose|prev: T| #[trigger]
            accumulates(prev, a[offset + b - 1], inv_fb[(b - 1) * FREQ_BINS + f], gain)
                && gain_after(a, offset, inv_fb, f, (b - 1) as nat, zero, prev);
        lemma_gain_reads_bands(a, c, offset, inv_fb, f, (b - 1) as nat, zero, prev);
        assert(a[offset + b - 1] == c[offset + b - 1]);
        assert(accumulates(prev, c[offset + b - 1], inv_fb[(b - 1) * FREQ_BINS + f], gain));
    }
}

/// A frame's gains rest on its own bands: what a mask holds for other frames makes no difference.
pub proof fn lemma_other_frames_do_not_matter<T: Add<Output = T> + Mul<Output = T>>(
    a: Seq<T>,
    c: Seq<T>,
    inv_fb: Seq<T>,
    frame_idx: nat,
    f: int,
    zero: T,
    gain: T,
)
    requires
        forall|k: int|
            frame_idx * ERB_BANDS <= k < frame_idx * ERB_BANDS + ERB_BANDS ==> #[trigger] a[k]
                == c[k],
    ensures
        bin_gain(a, inv_fb, frame_idx, f, zero, gain) == bin_gain(
            c,
            inv_fb,
            frame_idx,
            f,
            zero,
            gain,
        ),
{
    let offset = (frame_idx * ERB_BANDS) as int;
    if bin_gain(a, inv_fb, frame_idx, f, zero, gain) {
        lemma_gain_reads_bands(a, c, offset, inv_fb, f, ERB_BANDS as nat, zero, gain);
    }
    if bin_gain(c, inv_fb, frame_idx, f, zero, gain) {
        lemma_gain_reads_bands(c, a, offset, inv_fb, f, ERB_BANDS as nat, zero, gain);
    }
}

/// Frames that the deep filter reaches back.
pub const DF_PAD_BEFORE: usize = DF_ORDER - 1 - DF_LOOKAHEAD;

/// Whether tap `n` of the deep filter at frame `t` reads a frame that exists.
pub open spec fn tap_in_range(t: int, n: int, num_frames: int) -> bool {
    0 <= t + n - DF_PAD_BEFORE < num_frames
}

/// Where the coefficient of tap `n`, frame `t` and bin `f` stands: its real part, followed by its
/// imaginary part.
pub open spec fn coef_index(n: int, t: int, f: int, num_frames: int) -> int {
    ((n * num_frames + t) * DF_BINS + f) * 2
}

/// Whether `acc` is what `prev + (a * b - c * d)` gives.
pub open spec fn accumulates_difference<T: Add<Output = T> + Mul<Output = T> + Sub<Output = T>>(
    prev: T,
    a: T,
    b: T,
    c: T,
    d: T,
    acc: T,
) -> bool {
    exists|p: T, q: T, r: T| #[trigger]
        product_gives(a, b, p) && #[trigger] product_gives(c, d, q) && #[trigger] difference_gives(
            p,
            q,
            r,
        ) && sum_gives(prev, r, acc)
}

/// Whether `acc` is what `prev + (a * b + c * d)` gives.
pub open spec fn accumulates_sum<T: Add<Output = T> + Mul<Output = T>>(
    prev: T,
    a: T,
    b: T,
    c: T,
    d: T,
    acc: T,
) -> bool {
    exists|p: T, q: T, r: T| #[trigger]
        product_gives(a, b, p) && #[trigger] product_gives(c, d, q) && #[trigger] sum_gives(p, q, r)
            && sum_gives(prev, r, acc)
}

/// The spectra of some frames, and the coefficients of the deep filter for them.
pub struct FilterView<T> {
    pub reals: Seq<Seq<T>>,
    pub imags: Seq<Seq<T>>,
    pub coefs: Seq<T>,
    pub num_frames: int,
}

/// Whether tap `k` takes the sum at frame `t` and bin `f` from `(re0, im0)` to `(re, im)`: one that
/// reads an existing frame adds the complex product of its coefficient and that frame's bin.
pub open spec fn tap_step<T: Add<Output = T> + Mul<Output = T> + Sub<Output = T>>(
    v: FilterView<T>,
    t: int,
    f: int,
    k: int,
    re0: T,
    im0: T,
    re: T,
    im: T,
) -> bool {
    if tap_in_range(t, k, v.num_frames) {
        let s = t + k - DF_PAD_BEFORE;
        let c = coef_index(k, t, f, v.num_frames);
        &&& accumulates_difference(
            re0,
            v.reals[s][f],
            v.coefs[c],
            v.imags[s][f],
            v.coefs[c + 1],
            re,
        )
        &&& accumulates_sum(im0, v.reals[s][f], v.coefs[c + 1], v.imags[s][f], v.coefs[c], im)
    } else {
        re == re0 && im == im0
    }
}

/// Whether `(re, im)` is what the first `n` taps of the deep filter sum up to at frame `t` and bin `f`,
/// from `zero` on.
pub open spec fn filtered_after<T: Add<Output = T> + Mul<Output = T> + Sub<Output = T>>(
    v: FilterView<T>,
    t: int,
    f: int,
    n: nat,
    zero: T,
    re: T,
    im: T,
) -> bool
    decreases n,
{
    if n == 0 {
        re == zero && im == zero
    } else {
        exists|re0: T, im0: T|
            #[trigger] tap_step(v, t, f, n - 1, re0, im0, re, im) && filtered_after(
                v,
                t,
                f,
                (n - 1) as nat,
                zero,
                re0,
                im0,
            )
    }
}

/// The rows of a table.
pub open spec fn rows_of<T>(rows: Seq<Vec<T>>) -> Seq<Seq<T>> {
    rows.map_values(|r: Vec<T>| r@)
}

/// What the deep filter reads.
pub open spec fn filter_view<T>(
    reals: Seq<Vec<T>>,
    imags: Seq<Vec<T>>,
    coefs: Seq<T>,
    num_frames: int,
) -> FilterView<T> {
    FilterView { reals: rows_of(reals), imags: rows_of(imags), coefs, num_frames }
}

/// Whether `(re, im)` is bin `f` of the deep filter's output at frame `t`: filtered below [`DF_BINS`],
/// and that of the frame itself from there on.
pub open spec fn bin_filtered<T: Add<Output = T> + Mul<Output = T> + Sub<Output = T>>(
    v: FilterView<T>,
    t: int,
    f: int,
    zero: T,
    re: T,
    im: T,
) -> bool {
    if f < DF_BINS {
        filtered_after(v, t, f, DF_ORDER as nat, zero, re, im)
    } else {
        re == v.reals[t][f] && im == v.imags[t][f]
    }
}

/// Adds one tap of the deep filter to a bin.
fn filter_tap<T: Copy + Add<Output = T> + Mul<Output = T> + Sub<Output = T>>(
    re0: T,
    im0: T,
    x_re: T,
    x_im: T,
    w_re: T,
    w_im: T,
) -> (acc: (T, T))
    requires
        adds::<T>(),
        multiplies::<T>(),
        subtracts::<T>(),
    ensures
        accumulates_difference(re0, x_re, w_re, x_im, w_im, acc.0),
        accumulates_sum(im0, x_re, w_im, x_im, w_re, acc.1),
{
    assert(call_requires(<T as Mul>::mul, (x_re, w_re)));
    let p = x_re * w_re;
    assert(product_gives(x_re, w_re, p));
    assert(call_requires(<T as Mul>::mul, (x_im, w_im)));
    let q = x_im * w_im;
    assert(product_gives(x_im, w_im, q));
    assert(call_requires(<T as Sub>::sub, (p, q)));
    let d = p - q;
    assert(difference_gives(p, q, d));
    assert(call_requires(<T as Add>::add, (re0, d)));
    let re = re0 + d;
    assert(call_requires(<T as Mul>::mul, (x_re, w_im)));
    let r = x_re * w_im;
    assert(product_gives(x_re, w_im, r));
    assert(call_requires(<T as Mul>::mul, (x_im, w_re)));
    let s = x_im * w_re;
    assert(product_gives(x_im, w_re, s));
    assert(call_requires(<T as Add>::add, (r, s)));
    let e = r + s;
    assert(sum_gives(r, s, e));
    assert(call_requires(<T as Add>::add, (im0, e)));
    let im = im0 + e;
    assert(sum_gives(re0, d, re));
    assert(sum_gives(im0, e, im));
    (re, im)
}

/// The inputs of the deep filter are as large as it needs at frame `t`.
pub open spec fn filter_fits<T>(
    reals: Seq<Vec<T>>,
    imags: Seq<Vec<T>>,
    coefs: Seq<T>,
    num_frames: int,
    t: int,
) -> bool {
    &&& t < reals.len()
    &&& t < imags.len()
    &&& num_frames <= reals.len()
    &&& num_frames <= imags.len()
    &&& reals[t]@.len() >= FREQ_BINS
    &&& imags[t]@.len() >= FREQ_BINS
    &&& forall|s: int| 0 <= s < num_frames ==> (#[trigger] reals[s])@.len() >= DF_BINS
    &&& forall|s: int| 0 <= s < num_frames ==> (#[trigger] imags[s])@.len() >= DF_BINS
    &&& forall|n: int|
        0 <= n < DF_ORDER && tap_in_range(t, n, num_frames) ==> #[trigger] coef_index(
            n,
            t,
            DF_BINS - 1,
            num_frames,
        ) + 1 < coefs.len()
}

/// Computes one bin of the deep filter's output.
fn filter_bin<T: Copy + Add<Output = T> + Mul<Output = T> + Sub<Output = T>>(
    spec_real: &Vec<Vec<T>>,
    spec_imag: &Vec<Vec<T>>,
    df_coefs: &[T],
    num_frames: usize,
    frame_idx: usize,
    f: usize,
    zero: T,
) -> (bin: (T, T))
    requires
        adds::<T>(),
        multiplies::<T>(),
        subtracts::<T>(),
        f < DF_BINS,
        frame_idx <= usize::MAX - DF_ORDER,
        filter_fits(spec_real@, spec_imag@, df_coefs@, num_frames as int, frame_idx as int),
    ensures
        filtered_after(
            filter_view(spec_real@, spec_imag@, df_coefs@, num_frames as int),
            frame_idx as int,
            f as int,
            DF_ORDER as nat,
            zero,
            bin.0,
            bin.1,
        ),
{
    let ghost v = filter_view(spec_real@, spec_imag@, df_coefs@, num_frames as int);
    let ghost t = frame_idx as int;
    let mut acc_re = zero;
    let mut acc_im = zero;
    let mut n: usize = 0;
    while n < DF_ORDER
        invariant
            n <= DF_ORDER,
            adds::<T>(),
            multiplies::<T>(),
            subtracts::<T>(),
            f < DF_BINS,
            frame_idx <= usize::MAX - DF_ORDER,
            t == frame_idx,
            filter_fits(spec_real@, spec_imag@, df_coefs@, num_frames as int, t),
            v == filter_view(spec_real@, spec_imag@, df_coefs@, num_frames as int),
            filtered_after(v, t, f as int, n as nat, zero, acc_re, acc_im),
        decreases DF_ORDER - n,
    {
        let at: usize = frame_idx + n;
        let ghost re0 = acc_re;
        let ghost im0 = acc_im;
        if at >= DF_PAD_BEFORE && at - DF_PAD_BEFORE < num_frames {
            let src_t: usize = at - DF_PAD_BEFORE;
            proof {
                assert(tap_in_range(t, n as int, num_frames as int));
                assert(coef_index(n as int, t, DF_BINS - 1, num_frames as int) + 1
                    < df_coefs@.len());
                assert(df_coefs@.len() == df_coefs.len());
                assert(n * num_frames >= 0) by (nonlinear_arith);
                let base = (n * num_frames + t) * DF_BINS;
                assert(coef_index(n as int, t, DF_BINS - 1, num_frames as int) == (base + DF_BINS
                    - 1) * 2);
                assert(coef_index(n as int, t, f as int, num_frames as int) == (base + f) * 2);
                assert((n * num_frames + t) <= base);
                assert(v.reals[src_t as int] == spec_real@[src_t as int]@);
                assert(v.imags[src_t as int] == spec_imag@[src_t as int]@);
            }
            let base: usize = ((n * num_frames + frame_idx) * DF_BINS + f) * 2;
            let (re, im) = filter_tap(
                acc_re,
                acc_im,
                spec_real[src_t][f],
                spec_imag[src_t][f],
                df_coefs[base],
                df_coefs[base + 1],
            );
            acc_re = re;
            acc_im = im;
        }
        assert(tap_step(v, t, f as int, n as int, re0, im0, acc_re, acc_im));
        n += 1;
        assert(filtered_after(v, t, f as int, (n - 1) as nat, zero, re0, im0));
        assert(tap_step(v, t, f as int, n - 1, re0, im0, acc_re, acc_im));
    }
    (acc_re, acc_im)
}

/// Applies the deep filter at frame `frame_idx` to the lowest bins, and copies the others from the
/// frame. Taps that fall outside the frames contribute nothing.
pub fn apply_deep_filter<T: Copy + Add<Output = T> + Mul<Output = T> + Sub<Output = T>>(
    spec_real: &Vec<Vec<T>>,
    spec_imag: &Vec<Vec<T>>,
    df_coefs: &[T],
    num_frames: usize,
    frame_idx: usize,
    zero: T,
    out_real: &mut Vec<T>,
    out_imag: &mut Vec<T>,
)
    requires
        adds::<T>(),
        multiplies::<T>(),
        subtracts::<T>(),
        frame_idx <= usize::MAX - DF_ORDER,
        filter_fits(spec_real@, spec_imag@, df_coefs@, num_frames as int, frame_idx as int),
        old(out_real)@.len() >= FREQ_BINS,
        old(out_imag)@.len() >= FREQ_BINS,
    ensures
        final(out_real)@.len() == old(out_real)@.len(),
        final(out_imag)@.len() == old(out_imag)@.len(),
        forall|f: int|
            0 <= f < FREQ_BINS ==> #[trigger] bin_filtered(
                filter_view(spec_real@, spec_imag@, df_coefs@, num_frames as int),
                frame_idx as int,
                f,
                zero,
                final(out_real)@[f],
                final(out_imag)@[f],
            ),
        forall|f: int|
            FREQ_BINS <= f < old(out_real)@.len() ==> #[trigger] final(out_real)@[f] == old(out_real)@[f],
        forall|f: int|
            FREQ_BINS <= f < old(out_imag)@.len() ==> #[trigger] final(out_imag)@[f] == old(out_imag)@[f],
{
    let ghost v = filter_view(spec_real@, spec_imag@, df_coefs@, num_frames as int);
    let ghost t = frame_idx as int;
    let mut f: usize = 0;
    while f < FREQ_BINS
        invariant
            f <= FREQ_BINS,
            adds::<T>(),
            multiplies::<T>(),
            subtracts::<T>(),
            frame_idx <= usize::MAX - DF_ORDER,
            t == frame_idx,
            filter_fits(spec_real@, spec_imag@, df_coefs@, num_frames as int, t),
            v == filter_view(spec_real@, spec_imag@, df_coefs@, num_frames as int),
            out_real@.len() == old(out_real)@.len() >= FREQ_BINS,
            out_imag@.len() == old(out_imag)@.len() >= FREQ_BINS,
            forall|j: int|
                0 <= j < f ==> #[trigger] bin_filtered(v, t, j, zero, out_real@[j], out_imag@[j]),
            forall|j: int|
                FREQ_BINS <= j < old(out_real)@.len() ==> #[trigger] out_real@[j] == old(out_real)@[j],
            forall|j: int|
                FREQ_BINS <= j < old(out_imag)@.len() ==> #[trigger] out_imag@[j] == old(out_imag)@[j],
        decreases FREQ_BINS - f,
    {
        let ghost real_before = out_real@;
        let ghost imag_before = out_imag@;
        proof {
            assert(v.reals[t] == spec_real@[t]@);
            assert(v.imags[t] == spec_imag@[t]@);
        }
        if f < DF_BINS {
            let (re, im) = filter_bin(
                spec_real,
                spec_imag,
                df_coefs,
                num_frames,
                frame_idx,
                f,
                zero,
            );
            out_real.set(f, re);
            out_imag.set(f, im);
        } else {
            out_real.set(f, spec_real[frame_idx][f]);
            out_imag.set(f, spec_imag[frame_idx][f]);
        }
        assert forall|j: int| 0 <= j < f + 1 implies #[trigger] bin_filtered(
            v,
            t,
            j,
            zero,
            out_real@[j],
            out_imag@[j],
        ) by {
            if j < f {
                assert(bin_filtered(v, t, j, zero, real_before[j], imag_before[j]));
            }
        }
        f += 1;
    }
}

/// Whether `out` is what the first `k` taps of a filter sum up to at bin `f`, from `zero` on.
pub open spec fn tapped_after<C: Add<Output = C> + Mul<Output = C>>(
    spectra: Seq<Seq<C>>,
    coefs: Seq<Seq<C>>,
    f: int,
    k: nat,
    zero: C,
    out: C,
) -> bool
    decreases k,
{
    if k == 0 {
        out == zero
    } else {
        exists|prev: C|
            #[trigger] accumulates(prev, spectra[k - 1][f], coefs[k - 1][f], out) && tapped_after(
                spectra,
                coefs,
                f,
                (k - 1) as nat,
                zero,
                prev,
            )
    }
}

/// The deep filter over complex bins: bin by bin, the sum of each tap's spectrum times its
/// coefficient. Bins from `nb_df` on stay as they are.
pub fn df_fn<C: Copy + Add<Output = C> + Mul<Output = C>>(
    spectra: &Vec<Vec<C>>,
    coefs: &Vec<Vec<C>>,
    nb_df: usize,
    df_order: usize,
    zero: C,
    spec_out: &mut Vec<C>,
)
    requires
        adds::<C>(),
        multiplies::<C>(),
        nb_df <= old(spec_out)@.len(),
        df_order <= spectra@.len(),
        df_order <= coefs@.len(),
        forall|k: int| 0 <= k < df_order ==> (#[trigger] spectra@[k])@.len() >= nb_df,
        forall|k: int| 0 <= k < df_order ==> (#[trigger] coefs@[k])@.len() >= nb_df,
    ensures
        final(spec_out)@.len() == old(spec_out)@.len(),
        forall|f: int|
            0 <= f < nb_df ==> tapped_after(
                rows_of(spectra@),
                rows_of(coefs@),
                f,
                df_order as nat,
                zero,
                #[trigger] final(spec_out)@[f],
            ),
        forall|f: int|
            nb_df <= f < old(spec_out)@.len() ==> #[trigger] final(spec_out)@[f] == old(spec_out)@[f],
{
    let mut f: usize = 0;
    while f < nb_df
        invariant
            f <= nb_df <= spec_out@.len(),
            spec_out@.len() == old(spec_out)@.len(),
            adds::<C>(),
            multiplies::<C>(),
            df_order <= spectra@.len(),
            df_order <= coefs@.len(),
            forall|k: int| 0 <= k < df_order ==> (#[trigger] spectra@[k])@.len() >= nb_df,
            forall|k: int| 0 <= k < df_order ==> (#[trigger] coefs@[k])@.len() >= nb_df,
            forall|j: int|
                0 <= j < f ==> tapped_after(
                    rows_of(spectra@),
                    rows_of(coefs@),
                    j,
                    df_order as nat,
                    zero,
                    #[trigger] spec_out@[j],
                ),
            forall|j: int|
                f <= j < old(spec_out)@.len() ==> #[trigger] spec_out@[j] == old(spec_out)@[j],
        decreases nb_df - f,
    {
        let mut out = zero;
        let mut k: usize = 0;
        while k < df_order
            invariant
                k <= df_order,
                f < nb_df,
                adds::<C>(),
                multiplies::<C>(),
                df_order <= spectra@.len(),
                df_order <= coefs@.len(),
                forall|k: int| 0 <= k < df_order ==> (#[trigger] spectra@[k])@.len() >= nb_df,
                forall|k: int| 0 <= k < df_order ==> (#[trigger] coefs@[k])@.len() >= nb_df,
                tapped_after(
                    rows_of(spectra@),
                    rows_of(coefs@),
                    f as int,
                    k as nat,
                    zero,
                    out,
                ),
            decreases df_order - k,
        {
            proof {
                assert(rows_of(spectra@)[k as int] == spectra@[k as int]@);
                assert(rows_of(coefs@)[k as int] == coefs@[k as int]@);
                assert(spectra@[k as int]@.len() >= nb_df);
                assert(coefs@[k as int]@.len() >= nb_df);
            }
            let ghost prev = out;
            out = accumulate(out, spectra[k][f], coefs[k][f]);
            k += 1;
            assert(tapped_after(
                rows_of(spectra@),
                rows_of(coefs@),
                f as int,
                (k - 1) as nat,
                zero,
                prev,
            ));
            assert(accumulates(
                prev,
                rows_of(spectra@)[k - 1][f as int],
                rows_of(coefs@)[k - 1][f as int],
                out,
            ));
        }
        spec_out.set(f, out);
        f += 1;
    }
}

/// Whether `mixed` is what `enhanced * keep + noisy * back` gives.
pub open spec fn mixes<L, C: Add<Output = C> + Mul<L, Output = C>>(
    enhanced: C,
    noisy: C,
    keep: L,
    back: L,
    mixed: C,
) -> bool {
    exists|p: C, q: C| #[trigger]
        call_ensures(<C as Mul<L>>::mul, (enhanced, keep), p) && #[trigger] call_ensures(
            <C as Mul<L>>::mul,
            (noisy, back),
            q,
        ) && sum_gives(p, q, mixed)
}

/// Limits the attenuation of a spectrum: every bin keeps the share `keep` and gets the share `back` of
/// the noisy one, as far as both spectra reach.
pub fn mix_noisy<L: Copy, C: Copy + Add<Output = C> + Mul<L, Output = C>>(
    enhanced: &mut Vec<C>,
    noisy: &Vec<C>,
    keep: L,
    back: L,
)
    requires
        adds::<C>(),
        forall|x: C, y: L| #[trigger] call_requires(<C as Mul<L>>::mul, (x, y)),
    ensures
        final(enhanced)@.len() == old(enhanced)@.len(),
        forall|f: int|
            0 <= f < old(enhanced)@.len() && f < noisy@.len() ==> mixes(
                old(enhanced)@[f],
                noisy@[f],
                keep,
                back,
                #[trigger] final(enhanced)@[f],
            ),
        forall|f: int|
            noisy@.len() <= f < old(enhanced)@.len() ==> #[trigger] final(enhanced)@[f] == old(
                enhanced)@[f],
{
    let mut f: usize = 0;
    while f < enhanced.len() && f < noisy.len()
        invariant
            f <= enhanced@.len() == old(enhanced)@.len(),
            f <= noisy@.len(),
            adds::<C>(),
            forall|x: C, y: L| #[trigger] call_requires(<C as Mul<L>>::mul, (x, y)),
            forall|j: int|
                0 <= j < f ==> mixes(
                    old(enhanced)@[j],
                    noisy@[j],
                    keep,
                    back,
                    #[trigger] enhanced@[j],
                ),
            forall|j: int|
                f <= j < old(enhanced)@.len() ==> #[trigger] enhanced@[j] == old(enhanced)@[j],
        decreases enhanced@.len() - f,
    {
        let e = enhanced[f];
        let n = noisy[f];
        assert(call_requires(<C as Mul<L>>::mul, (e, keep)));
        let p = e * keep;
        assert(call_requires(<C as Mul<L>>::mul, (n, back)));
        let q = n * back;
        assert(call_ensures(<C as Mul<L>>::mul, (e, keep), p));
        assert(call_ensures(<C as Mul<L>>::mul, (n, back), q));
        assert(call_requires(<C as Add>::add, (p, q)));
        let m = p + q;
        assert(sum_gives(p, q, m));
        enhanced.set(f, m);
        f += 1;
    }
}

/// Numbers that are added, subtracted and multiplied without rounding: `value` is what a number stands for,
/// in units of its smallest step, and `zero` stands for nothing.
pub open spec fn exact<T: Add<Output = T> + Mul<Output = T>>(value: spec_fn(T) -> int, zero: T) -> bool {
    &&& value(zero) == 0
    &&& forall|x: T, y: T, z: T| #[trigger] sum_gives(x, y, z) ==> value(z) == value(x) + value(y)
    &&& forall|x: T, y: T, z: T| #[trigger] product_gives(x, y, z) ==> value(z) == value(x) * value(y)
}

/// Differences have no rounding either.
pub open spec fn exact_differences<T: Sub<Output = T>>(value: spec_fn(T) -> int) -> bool {
    forall|x: T, y: T, z: T| #[trigger] difference_gives(x, y, z) ==> value(z) == value(x) - value(y)
}

/// The sum of the first `n` values of `term`.
pub open spec fn total(term: spec_fn(int) -> int, n: nat) -> int
    decreases n,
{
    if n == 0 {
        0
    } else {
        total(term, (n - 1) as nat) + term(n - 1)
    }
}

/// Sums of equal terms are equal.
pub proof fn lemma_total_same(a: spec_fn(int) -> int, b: spec_fn(int) -> int, n: nat)
    requires
        forall|i: int| 0 <= i < n ==> #[trigger] a(i) == b(i),
    ensures
        total(a, n) == total(b, n),
    decreases n,
{
    if n > 0 {
        lemma_total_same(a, b, (n - 1) as nat);
        assert(a(n - 1) == b(n - 1));
    }
}

/// What the first `n` taps have added to a bin.
proof fn lemma_taps_add_up<T: Add<Output = T> + Mul<Output = T> + Sub<Output = T>>(
    value: spec_fn(T) -> int,
    v: FilterView<T>,
    t: int,
    f: int,
    n: nat,
    zero: T,
    re: T,
    im: T,
    re_term: spec_fn(int) -> int,
    im_term: spec_fn(int) -> int,
)
    requires
        exact(value, zero),
        exact_differences(value),
        filtered_after(v, t, f, n, zero, re, im),
        forall|k: int|
            0 <= k < n ==> #[trigger] re_term(k) == (if 0 <= t + k - 2 < v.num_frames {
                let c = 2 * ((k * v.num_frames + t) * 96 + f);
                value(v.reals[t + k - 2][f]) * value(v.coefs[c]) - value(v.imags[t + k - 2][f]) * value(
                    v.coefs[c + 1],
                )
            } else {
                0
            }),
        forall|k: int|
            0 <= k < n ==> #[trigger] im_term(k) == (if 0 <= t + k - 2 < v.num_frames {
                let c = 2 * ((k * v.num_frames + t) * 96 + f);
                value(v.reals[t + k - 2][f]) * value(v.coefs[c + 1]) + value(v.imags[t + k - 2][f])
                    * value(v.coefs[c])
            } else {
                0
            }),
    ensures
        value(re) == total(re_term, n),
        value(im) == total(im_term, n),
    decreases n,
{
    if n > 0 {
        let k = n - 1;
        let (re0, im0) = choose|re0: T, im0: T| #[trigger]
            tap_step(v, t, f, n - 1, re0, im0, re, im) && filtered_after(
                v,
                t,
                f,
                (n - 1) as nat,
                zero,
                re0,
                im0,
            );
        lemma_taps_add_up(
            value,
            v,
            t,
            f,
            (n - 1) as nat,
            zero,
            re0,
            im0,
            re_term,
            im_term,
        );
        assert(re_term(k) == re_term(k) && im_term(k) == im_term(k));
        if 0 <= t + k - 2 < v.num_frames {
            assert(tap_in_range(t, k, v.num_frames));
            assert(coef_index(k, t, f, v.num_frames) == 2 * ((k * v.num_frames + t) * 96 + f));
        }
    }
}

/// The deep filter, in so many words. Below bin 96 the output at frame `t` is a sum of five terms: tap `k`
/// takes the bin of frame `t + k - 2`, so two frames back at first and two frames ahead at last, and
/// multiplies it, as a complex number, by the pair of coefficients of that tap, frame and bin. A tap that
/// falls outside the frames adds nothing. From bin 96 on the bin of frame `t` itself comes out.
pub proof fn lemma_deep_filter_sums_five_taps<T: Add<Output = T> + Mul<Output = T> + Sub<Output = T>>(
    value: spec_fn(T) -> int,
    v: FilterView<T>,
    t: int,
    f: int,
    zero: T,
    re: T,
    im: T,
)
    requires
        exact(value, zero),
        exact_differences(value),
        bin_filtered(v, t, f, zero, re, im),
    ensures
        f >= 96 ==> re == v.reals[t][f] && im == v.imags[t][f],
        f < 96 ==> ({
            let re_term = |k: int|
                if 0 <= t + k - 2 < v.num_frames {
                    let c = 2 * ((k * v.num_frames + t) * 96 + f);
                    value(v.reals[t + k - 2][f]) * value(v.coefs[c]) - value(v.imags[t + k - 2][f])
                        * value(v.coefs[c + 1])
                } else {
                    0
                };
            let im_term = |k: int|
                if 0 <= t + k - 2 < v.num_frames {
                    let c = 2 * ((k * v.num_frames + t) * 96 + f);
                    value(v.reals[t + k - 2][f]) * value(v.coefs[c + 1]) + value(v.imags[t + k - 2][f])
                        * value(v.coefs[c])
                } else {
                    0
                };
            &&& value(re) == re_term(0) + re_term(1) + re_term(2) + re_term(3) + re_term(4)
            &&& value(im) == im_term(0) + im_term(1) + im_term(2) + im_term(3) + im_term(4)
        }),
{
    if f < 96 {
        let re_term = |k: int|
            if 0 <= t + k - 2 < v.num_frames {
                let c = 2 * ((k * v.num_frames + t) * 96 + f);
                value(v.reals[t + k - 2][f]) * value(v.coefs[c]) - value(v.imags[t + k - 2][f]) * value(
                    v.coefs[c + 1],
                )
            } else {
                0
            };
        let im_term = |k: int|
            if 0 <= t + k - 2 < v.num_frames {
                let c = 2 * ((k * v.num_frames + t) * 96 + f);
                value(v.reals[t + k - 2][f]) * value(v.coefs[c + 1]) + value(v.imags[t + k - 2][f])
                    * value(v.coefs[c])
            } else {
                0
            };
        lemma_taps_add_up(value, v, t, f, 5, zero, re, im, re_term, im_term);
        reveal_with_fuel(total, 6);
    }
}

/// The same of spectra that are held row by row.
pub proof fn lemma_deep_filter_sums_five_frames<T: Add<Output = T> + Mul<Output = T> + Sub<Output = T>>(
    value: spec_fn(T) -> int,
    reals: Seq<Vec<T>>,
    imags: Seq<Vec<T>>,
    coefs: Seq<T>,
    num_frames: int,
    t: int,
    f: int,
    zero: T,
    re: T,
    im: T,
)
    requires
        exact(value, zero),
        exact_differences(value),
        0 <= t < reals.len(),
        t < imags.len(),
        num_frames <= reals.len(),
        num_frames <= imags.len(),
        0 <= f < FREQ_BINS,
        bin_filtered(filter_view(reals, imags, coefs, num_frames), t, f, zero, re, im),
    ensures
        f >= 96 ==> re == reals[t]@[f] && im == imags[t]@[f],
        f < 96 ==> ({
            let re_term = |k: int|
                if 0 <= t + k - 2 < num_frames {
                    let c = 2 * ((k * num_frames + t) * 96 + f);
                    value(reals[t + k - 2]@[f]) * value(coefs[c]) - value(imags[t + k - 2]@[f])
                        * value(coefs[c + 1])
                } else {
                    0
                };
            let im_term = |k: int|
                if 0 <= t + k - 2 < num_frames {
                    let c = 2 * ((k * num_frames + t) * 96 + f);
                    value(reals[t + k - 2]@[f]) * value(coefs[c + 1]) + value(imags[t + k - 2]@[f])
                        * value(coefs[c])
                } else {
                    0
                };
            &&& value(re) == re_term(0) + re_term(1) + re_term(2) + re_term(3) + re_term(4)
            &&& value(im) == im_term(0) + im_term(1) + im_term(2) + im_term(3) + im_term(4)
        }),
{
    let v = filter_view(reals, imags, coefs, num_frames);
    lemma_deep_filter_sums_five_taps(value, v, t, f, zero, re, im);
    assert(v.reals[t] == reals[t]@);
    assert(v.imags[t] == imags[t]@);
    assert forall|s: int| 0 <= s < num_frames implies #[trigger] v.reals[s] == reals[s]@ && v.imags[s]
        == imags[s]@ by {}
}

/// Where one tap alone has a coefficient, and that is one, the deep filter moves its bin: the output of
/// frame `t` is the bin of frame `t + n - 2` where there is such a frame, and nothing where there is not.
pub proof fn lemma_single_tap_moves_a_frame<T: Add<Output = T> + Mul<Output = T> + Sub<Output = T>>(
    value: spec_fn(T) -> int,
    reals: Seq<Vec<T>>,
    imags: Seq<Vec<T>>,
    coefs: Seq<T>,
    num_frames: int,
    t: int,
    f: int,
    n: int,
    zero: T,
    re: T,
    im: T,
)
    requires
        exact(value, zero),
        exact_differences(value),
        0 <= t < reals.len(),
        t < imags.len(),
        num_frames <= reals.len(),
        num_frames <= imags.len(),
        0 <= f < 96,
        0 <= n < 5,
        bin_filtered(filter_view(reals, imags, coefs, num_frames), t, f, zero, re, im),
        value(coefs[2 * ((n * num_frames + t) * 96 + f)]) == 1,
        value(coefs[2 * ((n * num_frames + t) * 96 + f) + 1]) == 0,
        forall|k: int|
            0 <= k < 5 && k != n ==> value(#[trigger] coefs[2 * ((k * num_frames + t) * 96 + f)]) == 0
                && value(coefs[2 * ((k * num_frames + t) * 96 + f) + 1]) == 0,
    ensures
        0 <= t + n - 2 < num_frames ==> value(re) == value(reals[t + n - 2]@[f]) && value(im)
            == value(imags[t + n - 2]@[f]),
        !(0 <= t + n - 2 < num_frames) ==> value(re) == 0 && value(im) == 0,
{
    lemma_deep_filter_sums_five_frames(
        value,
        reals,
        imags,
        coefs,
        num_frames,
        t,
        f,
        zero,
        re,
        im,
    );
    assert forall|k: int| 0 <= k < 5 && k != n implies value(
        #[trigger] coefs[2 * ((k * num_frames + t) * 96 + f)],
    ) == 0 && value(coefs[2 * ((k * num_frames + t) * 96 + f) + 1]) == 0 by {}
    assert(coefs[2 * ((0 * num_frames + t) * 96 + f)] == coefs[2 * ((0 * num_frames + t) * 96 + f)]);
    assert(coefs[2 * ((1 * num_frames + t) * 96 + f)] == coefs[2 * ((1 * num_frames + t) * 96 + f)]);
    assert(coefs[2 * ((2 * num_frames + t) * 96 + f)] == coefs[2 * ((2 * num_frames + t) * 96 + f)]);
    assert(coefs[2 * ((3 * num_frames + t) * 96 + f)] == coefs[2 * ((3 * num_frames + t) * 96 + f)]);
    assert(coefs[2 * ((4 * num_frames + t) * 96 + f)] == coefs[2 * ((4 * num_frames + t) * 96 + f)]);
    assert(forall|x: int| #[trigger] (x * 0) == 0);
    assert(forall|x: int| #[trigger] (x * 1) == x);
}

/// What the first `b` bands have added to a gain.
proof fn lemma_gain_adds_up<T: Add<Output = T> + Mul<Output = T>>(
    value: spec_fn(T) -> int,
    mask: Seq<T>,
    offset: int,
    inv_fb: Seq<T>,
    f: int,
    b: nat,
    zero: T,
    gain: T,
    term: spec_fn(int) -> int,
)
    requires
        exact(value, zero),
        gain_after(mask, offset, inv_fb, f, b, zero, gain),
        forall|k: int|
            0 <= k < b ==> #[trigger] term(k) == value(mask[offset + k]) * value(inv_fb[k * 481 + f]),
    ensures
        value(gain) == total(term, b),
    decreases b,
{
    if b > 0 {
        let prev = choose|prev: T|
            #[trigger] accumulates(
                prev,
                mask[offset + b - 1],
                inv_fb[(b - 1) * FREQ_BINS + f],
                gain,
            ) && gain_after(mask, offset, inv_fb, f, (b - 1) as nat, zero, prev);
        lemma_gain_adds_up(value, mask, offset, inv_fb, f, (b - 1) as nat, zero, prev, term);
        assert(term(b - 1) == value(mask[offset + (b - 1)]) * value(inv_fb[(b - 1) * 481 + f]));
        assert(offset + b - 1 == offset + (b - 1));
    }
}

/// The gain of a bin, in so many words: the sum over all 32 bands of the mask of the frame, which starts at
/// `frame_idx * 32`, times the weight of the band in the bin, which stands at `b * 481 + f`. A masked bin is
/// the bin times that gain, real and imaginary part alike.
pub proof fn lemma_masked_bin_is_weighed_by_all_bands<T: Add<Output = T> + Mul<Output = T>>(
    value: spec_fn(T) -> int,
    mask: Seq<T>,
    inv_fb: Seq<T>,
    frame_idx: nat,
    zero: T,
    gains: Seq<T>,
    reals: Seq<T>,
    imags: Seq<T>,
    masked_reals: Seq<T>,
    masked_imags: Seq<T>,
    f: int,
)
    requires
        exact(value, zero),
        frame_gains(mask, inv_fb, frame_idx, zero, gains),
        multiplied(gains, reals, imags, masked_reals, masked_imags),
        0 <= f < 481,
    ensures
        ({
            let gain = total(
                |b: int| value(mask[frame_idx * 32 + b]) * value(inv_fb[b * 481 + f]),
                32,
            );
            &&& value(gains[f]) == gain
            &&& value(masked_reals[f]) == value(reals[f]) * gain
            &&& value(masked_imags[f]) == value(imags[f]) * gain
        }),
{
    let term = |b: int| value(mask[frame_idx * 32 + b]) * value(inv_fb[b * 481 + f]);
    assert(bin_gain(mask, inv_fb, frame_idx, f, zero, gains[f]));
    lemma_gain_adds_up(
        value,
        mask,
        (frame_idx * 32) as int,
        inv_fb,
        f,
        32,
        zero,
        gains[f],
        term,
    );
}

/// A bin that runs through a deep filter, in so many words: the sum over the first `k` rows of the bin times
/// the coefficient of that row and bin.
pub proof fn lemma_taps_weigh_their_own_rows<C: Add<Output = C> + Mul<Output = C>>(
    value: spec_fn(C) -> int,
    spectra: Seq<Seq<C>>,
    coefs: Seq<Seq<C>>,
    f: int,
    k: nat,
    zero: C,
    out: C,
)
    requires
        exact(value, zero),
        tapped_after(spectra, coefs, f, k, zero, out),
    ensures
        value(out) == total(|i: int| value(spectra[i][f]) * value(coefs[i][f]), k),
    decreases k,
{
    let term = |i: int| value(spectra[i][f]) * value(coefs[i][f]);
    if k > 0 {
        let prev = choose|prev: C|
            #[trigger] accumulates(prev, spectra[k - 1][f], coefs[k - 1][f], out) && tapped_after(
                spectra,
                coefs,
                f,
                (k - 1) as nat,
                zero,
                prev,
            );
        lemma_taps_weigh_their_own_rows(value, spectra, coefs, f, (k - 1) as nat, zero, prev);
        assert(term(k - 1) == value(spectra[k - 1][f]) * value(coefs[k - 1][f]));
    }
}

/// Mixing, in so many words: the enhanced number times what is kept of it, plus the noisy number times what
/// is let back in.
pub proof fn lemma_mix_adds_both_shares<L, C: Add<Output = C> + Mul<L, Output = C>>(
    value: spec_fn(C) -> int,
    share: spec_fn(L) -> int,
    enhanced: C,
    noisy: C,
    keep: L,
    back: L,
    mixed: C,
)
    requires
        forall|x: C, y: C, z: C| #[trigger] sum_gives(x, y, z) ==> value(z) == value(x) + value(y),
        forall|x: C, l: L, z: C| #[trigger]
            call_ensures(<C as Mul<L>>::mul, (x, l), z) ==> value(z) == value(x) * share(l),
        mixes(enhanced, noisy, keep, back, mixed),
    ensures
        value(mixed) == value(enhanced) * share(keep) + value(noisy) * share(back),
{
}

} // verus!
