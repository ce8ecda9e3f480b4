//! How frequency bins and bands weigh on each other.
//!
//! A bank is a table with one weight per bin and band, bin by bin; its inverse is laid out band by band. The
//! functions are generic in the number type `T`, as those of [`crate::dsp`] are.
use vstd::prelude::*;
use std::ops::{Add, Mul};

use crate::config::{ERB_BANDS, FFT_SIZE, FREQ_BINS};
use crate::dsp::{adds, exact, multiplies, product_gives, sum_gives, total};

verus! {

/// Where the weight of bin `f` in band `b` stands in a bank.
pub open spec fn at(f: int, b: int) -> int {
    f * ERB_BANDS + b
}

/// Where the weight of band `b` in bin `f` stands in an inverse bank.
pub open spec fn inverse_at(b: int, f: int) -> int {
    b * FREQ_BINS + f
}

/// Whether `sum` is what the weights of the first `n` bins in band `b` sum up to, from `zero` on.
pub open spec fn column_sum<T: Add<Output = T>>(
    bank: Seq<T>,
    b: int,
    n: nat,
    zero: T,
    sum: T,
) -> bool
    decreases n,
{
    if n == 0 {
        sum == zero
    } else {
        exists|prev: T|
            #[trigger] sum_gives(prev, bank[at(n - 1, b)], sum) && column_sum(
                bank,
                b,
                (n - 1) as nat,
                zero,
                prev,
            )
    }
}

/// Sums the weights of a band up.
fn sum_column<T: Copy + Add<Output = T>>(bank: &Vec<T>, b: usize, zero: T) -> (sum: T)
    requires
        adds::<T>(),
        b < ERB_BANDS,
        bank@.len() >= FREQ_BINS * ERB_BANDS,
    ensures
        column_sum(bank@, b as int, FREQ_BINS as nat, zero, sum),
{
    let mut sum = zero;
    let mut f: usize = 0;
    while f < FREQ_BINS
        invariant
            f <= FREQ_BINS,
            adds::<T>(),
            b < ERB_BANDS,
            bank@.len() >= FREQ_BINS * ERB_BANDS,
            column_sum(bank@, b as int, f as nat, zero, sum),
        decreases FREQ_BINS - f,
    {
        let ghost prev = sum;
        let w = bank[f * ERB_BANDS + b];
        assert(call_requires(<T as Add>::add, (sum, w)));
        sum = sum + w;
        assert(sum_gives(prev, bank@[at(f as int, b as int)], sum));
        f += 1;
        assert(column_sum(bank@, b as int, (f - 1) as nat, zero, prev));
        assert(sum_gives(prev, bank@[at(f - 1, b as int)], sum));
    }
    sum
}

/// The weights are those that `weight` gives for the three centers around a band and the frequency of a bin.
pub open spec fn weighed<T, W: Fn(T, T, T, T) -> T>(
    centers: Seq<T>,
    freqs: Seq<T>,
    weight: W,
    bank: Seq<T>,
) -> bool {
    &&& bank.len() == FREQ_BINS * ERB_BANDS
    &&& forall|f: int, b: int|
        0 <= f < FREQ_BINS && 0 <= b < ERB_BANDS ==> weight.ensures(
            (centers[b], centers[b + 1], centers[b + 2], freqs[f]),
            #[trigger] bank[at(f, b)],
        )
}

/// Computes the weights of all bins in all bands.
fn weigh<T: Copy, W: Fn(T, T, T, T) -> T>(centers: &Vec<T>, freqs: &Vec<T>, weight: &W) -> (bank: Vec<
    T,
>)
    requires
        centers@.len() == ERB_BANDS + 2,
        freqs@.len() == FREQ_BINS,
        forall|l: T, c: T, u: T, f: T| #[trigger] weight.requires((l, c, u, f)),
    ensures
        weighed(centers@, freqs@, *weight, bank@),
{
    let mut bank: Vec<T> = Vec::with_capacity(FREQ_BINS * ERB_BANDS);
    let mut f: usize = 0;
    while f < FREQ_BINS
        invariant
            f <= FREQ_BINS,
            centers@.len() == ERB_BANDS + 2,
            freqs@.len() == FREQ_BINS,
            forall|l: T, c: T, u: T, f: T| #[trigger] weight.requires((l, c, u, f)),
            bank@.len() == f * ERB_BANDS,
            forall|i: int, b: int|
                0 <= i < f && 0 <= b < ERB_BANDS ==> weight.ensures(
                    (centers@[b], centers@[b + 1], centers@[b + 2], freqs@[i]),
                    #[trigger] bank@[at(i, b)],
                ),
        decreases FREQ_BINS - f,
    {
        let mut b: usize = 0;
        while b < ERB_BANDS
            invariant
                b <= ERB_BANDS,
                f < FREQ_BINS,
                centers@.len() == ERB_BANDS + 2,
                freqs@.len() == FREQ_BINS,
                forall|l: T, c: T, u: T, f: T| #[trigger] weight.requires((l, c, u, f)),
                bank@.len() == f * ERB_BANDS + b,
                forall|i: int, j: int|
                    0 <= i < f && 0 <= j < ERB_BANDS ==> weight.ensures(
                        (centers@[j], centers@[j + 1], centers@[j + 2], freqs@[i]),
                        #[trigger] bank@[at(i, j)],
                    ),
                forall|j: int|
                    0 <= j < b ==> weight.ensures(
                        (centers@[j], centers@[j + 1], centers@[j + 2], freqs@[f as int]),
                        #[trigger] bank@[at(f as int, j)],
                    ),
            decreases ERB_BANDS - b,
        {
            let ghost before = bank@;
            let w = weight(centers[b], centers[b + 1], centers[b + 2], freqs[f]);
            bank.push(w);
            assert forall|i: int, j: int| 0 <= i < f && 0 <= j < ERB_BANDS implies weight.ensures(
                (centers@[j], centers@[j + 1], centers@[j + 2], freqs@[i]),
                #[trigger] bank@[at(i, j)],
            ) by {
                assert(bank@[at(i, j)] == before[at(i, j)]);
            }
            assert forall|j: int| 0 <= j < b + 1 implies weight.ensures(
                (centers@[j], centers@[j + 1], centers@[j + 2], freqs@[f as int]),
                #[trigger] bank@[at(f as int, j)],
            ) by {
                if j < b {
                    assert(bank@[at(f as int, j)] == before[at(f as int, j)]);
                }
            }
            b += 1;
        }
        assert forall|i: int, j: int| 0 <= i < f + 1 && 0 <= j < ERB_BANDS implies weight.ensures(
            (centers@[j], centers@[j + 1], centers@[j + 2], freqs@[i]),
            #[trigger] bank@[at(i, j)],
        ) by {
            if i == f {
                assert(bank@[at(f as int, j)] == bank@[at(i, j)]);
            }
        }
        f += 1;
    }
    bank
}

/// Band `b` was normalised: where the sum of its weights is positive, each was multiplied by the inverse of
/// the sum; else they are as they were.
pub open spec fn band_normalised<
    T: Add<Output = T> + Mul<Output = T>,
    P: Fn(T) -> bool,
    I: Fn(T) -> T,
>(before: Seq<T>, after: Seq<T>, b: int, positive: P, invert: I, zero: T) -> bool {
    exists|sum: T, p: bool|
        {
            &&& column_sum(before, b, FREQ_BINS as nat, zero, sum)
            &&& #[trigger] positive.ensures((sum,), p)
            &&& if p {
                exists|inv: T|
                    {
                        &&& #[trigger] invert.ensures((sum,), inv)
                        &&& forall|f: int|
                            0 <= f < FREQ_BINS ==> product_gives(
                                before[at(f, b)],
                                inv,
                                #[trigger] after[at(f, b)],
                            )
                    }
            } else {
                forall|f: int| 0 <= f < FREQ_BINS ==> #[trigger] after[at(f, b)] == before[at(f, b)]
            }
        }
}

/// Multiplies the weights of a band.
fn scale_column<T: Copy + Mul<Output = T>>(bank: &mut Vec<T>, b: usize, inv: T)
    requires
        multiplies::<T>(),
        b < ERB_BANDS,
        old(bank)@.len() == FREQ_BINS * ERB_BANDS,
    ensures
        final(bank)@.len() == old(bank)@.len(),
        forall|f: int|
            0 <= f < FREQ_BINS ==> product_gives(
                old(bank)@[at(f, b as int)],
                inv,
                #[trigger] final(bank)@[at(f, b as int)],
            ),
        forall|f: int, j: int|
            0 <= f < FREQ_BINS && 0 <= j < ERB_BANDS && j != b ==> #[trigger] final(bank)@[at(f, j)]
                == old(bank)@[at(f, j)],
{
    let mut f: usize = 0;
    while f < FREQ_BINS
        invariant
            f <= FREQ_BINS,
            multiplies::<T>(),
            b < ERB_BANDS,
            bank@.len() == old(bank)@.len() == FREQ_BINS * ERB_BANDS,
            forall|i: int|
                0 <= i < f ==> product_gives(
                    old(bank)@[at(i, b as int)],
                    inv,
                    #[trigger] bank@[at(i, b as int)],
                ),
            forall|i: int|
                f <= i < FREQ_BINS ==> #[trigger] bank@[at(i, b as int)] == old(bank)@[at(
                    i,
                    b as int,
                )],
            forall|i: int, j: int|
                0 <= i < FREQ_BINS && 0 <= j < ERB_BANDS && j != b ==> #[trigger] bank@[at(i, j)]
                    == old(bank)@[at(i, j)],
        decreases FREQ_BINS - f,
    {
        let ghost before = bank@;
        let k: usize = f * ERB_BANDS + b;
        assert(k == at(f as int, b as int));
        assert(call_requires(<T as Mul>::mul, (bank@[k as int], inv)));
        let w = bank[k] * inv;
        assert(product_gives(bank@[k as int], inv, w));
        bank.set(k, w);
        assert forall|i: int| 0 <= i < f + 1 implies product_gives(
            old(bank)@[at(i, b as int)],
            inv,
            #[trigger] bank@[at(i, b as int)],
        ) by {
            if i < f {
                assert(bank@[at(i, b as int)] == before[at(i, b as int)]);
            }
        }
        assert forall|i: int, j: int|
            0 <= i < FREQ_BINS && 0 <= j < ERB_BANDS && j != b implies #[trigger] bank@[at(i, j)]
            == old(bank)@[at(i, j)] by {
            assert(at(i, j) != k);
            assert(bank@[at(i, j)] == before[at(i, j)]);
        }
        f += 1;
    }
}

/// A bank was normalised, band by band.
pub open spec fn normalised<
    T: Add<Output = T> + Mul<Output = T>,
    P: Fn(T) -> bool,
    I: Fn(T) -> T,
>(before: Seq<T>, after: Seq<T>, positive: P, invert: I, zero: T) -> bool {
    &&& after.len() == before.len()
    &&& forall|b: int|
        0 <= b < ERB_BANDS ==> #[trigger] band_normalised(before, after, b, positive, invert, zero)
}

/// Column sums depend on their own column only.
proof fn lemma_column_sum_frame<T: Add<Output = T>>(
    a: Seq<T>,
    c: Seq<T>,
    b: int,
    n: nat,
    zero: T,
    sum: T,
)
    requires
        n <= FREQ_BINS,
        forall|f: int| 0 <= f < FREQ_BINS ==> #[trigger] c[at(f, b)] == a[at(f, b)],
        column_sum(c, b, n, zero, sum),
    ensures
        column_sum(a, b, n, zero, sum),
    decreases n,
{
    if n > 0 {
        let prev = choose|prev: T|
            #[trigger] sum_gives(prev, c[at(n - 1, b)], sum) && column_sum(
                c,
                b,
                (n - 1) as nat,
                zero,
                prev,
            );
        lemma_column_sum_frame(a, c, b, (n - 1) as nat, zero, prev);
        assert(c[at(n - 1, b)] == a[at(n - 1, b)]);
        assert(sum_gives(prev, a[at(n - 1, b)], sum));
    }
}

/// Whether normalising may turn the weight `w` into `x`: by leaving it, or by multiplying it with the inverse
/// of a positive sum.
pub open spec fn scaled<T: Mul<Output = T>, P: Fn(T) -> bool, I: Fn(T) -> T>(
    w: T,
    x: T,
    positive: P,
    invert: I,
) -> bool {
    x == w || exists|sum: T, inv: T|
        {
            &&& positive.ensures((sum,), true)
            &&& #[trigger] invert.ensures((sum,), inv)
            &&& product_gives(w, inv, x)
        }
}

/// Whether `x` may come from the weight of the frequency `q` in the band given by the centers `l`, `c` and
/// `u`.
pub open spec fn from_weight<
    T: Mul<Output = T>,
    W: Fn(T, T, T, T) -> T,
    P: Fn(T) -> bool,
    I: Fn(T) -> T,
>(l: T, c: T, u: T, q: T, weight: W, positive: P, invert: I, x: T) -> bool {
    exists|w: T| #[trigger] weight.ensures((l, c, u, q), w) && scaled(w, x, positive, invert)
}

/// What a bank holds of a bin in a band is the weight of that bin in that band, left or scaled.
proof fn lemma_entry<
    T: Add<Output = T> + Mul<Output = T>,
    W: Fn(T, T, T, T) -> T,
    P: Fn(T) -> bool,
    I: Fn(T) -> T,
>(
    centers: Seq<T>,
    freqs: Seq<T>,
    weight: W,
    positive: P,
    invert: I,
    zero: T,
    raw: Seq<T>,
    bank: Seq<T>,
    f: int,
    b: int,
)
    requires
        weighed(centers, freqs, weight, raw),
        normalised(raw, bank, positive, invert, zero),
        0 <= f < FREQ_BINS,
        0 <= b < ERB_BANDS,
    ensures
        weight.ensures((centers[b], centers[b + 1], centers[b + 2], freqs[f]), raw[f * ERB_BANDS + b]),
        scaled(raw[f * ERB_BANDS + b], bank[f * ERB_BANDS + b], positive, invert),
{
    assert(weight.ensures((centers[b], centers[b + 1], centers[b + 2], freqs[f]), raw[at(f, b)]));
    assert(band_normalised(raw, bank, b, positive, invert, zero));
    assert(bank[at(f, b)] == bank[f * ERB_BANDS + b]);
}

/// What a bank holds, by where it stands.
proof fn lemma_entries<
    T: Add<Output = T> + Mul<Output = T>,
    W: Fn(T, T, T, T) -> T,
    P: Fn(T) -> bool,
    I: Fn(T) -> T,
>(
    centers: Seq<T>,
    freqs: Seq<T>,
    weight: W,
    positive: P,
    invert: I,
    zero: T,
    raw: Seq<T>,
    bank: Seq<T>,
)
    requires
        weighed(centers, freqs, weight, raw),
        normalised(raw, bank, positive, invert, zero),
    ensures
        forall|k: int|
            #![trigger bank[k]]
            0 <= k < FREQ_BINS * ERB_BANDS ==> from_weight(
                centers[k % (ERB_BANDS as int)],
                centers[k % (ERB_BANDS as int) + 1],
                centers[k % (ERB_BANDS as int) + 2],
                freqs[k / (ERB_BANDS as int)],
                weight,
                positive,
                invert,
                bank[k],
            ),
        (forall|x: T, y: T| #[trigger] product_gives(zero, x, y) ==> y == zero) ==> forall|k: int|
            #![trigger bank[k]]
            0 <= k < FREQ_BINS * ERB_BANDS && ({
                let (f, b) = (k / (ERB_BANDS as int), k % (ERB_BANDS as int));
                forall|w: T| #[trigger]
                    weight.ensures((centers[b], centers[b + 1], centers[b + 2], freqs[f]), w)
                        ==> w == zero
            }) ==> bank[k] == zero,
{
    assert forall|k: int|
        #![trigger bank[k]]
        0 <= k < FREQ_BINS * ERB_BANDS implies from_weight(
            centers[k % (ERB_BANDS as int)],
            centers[k % (ERB_BANDS as int) + 1],
            centers[k % (ERB_BANDS as int) + 2],
            freqs[k / (ERB_BANDS as int)],
            weight,
            positive,
            invert,
            bank[k],
        ) by {
        let (f, b) = (k / (ERB_BANDS as int), k % (ERB_BANDS as int));
        lemma_entry(centers, freqs, weight, positive, invert, zero, raw, bank, f, b);
        assert(f * ERB_BANDS + b == k);
    }
    if forall|x: T, y: T| #[trigger] product_gives(zero, x, y) ==> y == zero {
        assert forall|k: int|
            #![trigger bank[k]]
            0 <= k < FREQ_BINS * ERB_BANDS && ({
                let (f, b) = (k / (ERB_BANDS as int), k % (ERB_BANDS as int));
                forall|w: T| #[trigger]
                    weight.ensures((centers[b], centers[b + 1], centers[b + 2], freqs[f]), w) ==> w == zero
            }) implies bank[k] == zero by {
            let (f, b) = (k / (ERB_BANDS as int), k % (ERB_BANDS as int));
            lemma_entry(centers, freqs, weight, positive, invert, zero, raw, bank, f, b);
        }
    }
}

/// The bank of overlapping bands around `centers`, for bins at `freqs`: `weight` is the weight of a
/// frequency in a band given by its lower, middle and upper center, and every band whose weights sum up to
/// something positive is normalised by the inverse of the sum.
pub fn compute_erb_fb<
    T: Copy + Add<Output = T> + Mul<Output = T>,
    W: Fn(T, T, T, T) -> T,
    P: Fn(T) -> bool,
    I: Fn(T) -> T,
>(centers: &Vec<T>, freqs: &Vec<T>, weight: &W, positive: &P, invert: &I, zero: T) -> (bank: Vec<T>)
    requires
        adds::<T>(),
        multiplies::<T>(),
        centers@.len() == ERB_BANDS + 2,
        freqs@.len() == FREQ_BINS,
        forall|l: T, c: T, u: T, f: T| #[trigger] weight.requires((l, c, u, f)),
        forall|x: T| #[trigger] positive.requires((x,)),
        forall|x: T| #[trigger] invert.requires((x,)),
    ensures
        bank@.len() == FREQ_BINS * ERB_BANDS,
        exists|raw: Seq<T>|
            weighed(centers@, freqs@, *weight, raw) && #[trigger] normalised(
                raw,
                bank@,
                *positive,
                *invert,
                zero,
            ),
        forall|k: int|
            #![trigger bank@[k]]
            0 <= k < FREQ_BINS * ERB_BANDS ==> from_weight(
                centers@[k % (ERB_BANDS as int)],
                centers@[k % (ERB_BANDS as int) + 1],
                centers@[k % (ERB_BANDS as int) + 2],
                freqs@[k / (ERB_BANDS as int)],
                *weight,
                *positive,
                *invert,
                bank@[k],
            ),
        (forall|x: T, y: T| #[trigger] product_gives(zero, x, y) ==> y == zero) ==> forall|k: int|
            #![trigger bank@[k]]
            0 <= k < FREQ_BINS * ERB_BANDS && ({
                let (f, b) = (k / (ERB_BANDS as int), k % (ERB_BANDS as int));
                forall|w: T| #[trigger]
                    weight.ensures((centers@[b], centers@[b + 1], centers@[b + 2], freqs@[f]), w)
                        ==> w == zero
            }) ==> bank@[k] == zero,
{
    let mut bank = weigh(centers, freqs, weight);
    let ghost raw = bank@;
    let mut b: usize = 0;
    while b < ERB_BANDS
        invariant
            b <= ERB_BANDS,
            adds::<T>(),
            multiplies::<T>(),
            forall|x: T| #[trigger] positive.requires((x,)),
            forall|x: T| #[trigger] invert.requires((x,)),
            weighed(centers@, freqs@, *weight, raw),
            bank@.len() == raw.len(),
            forall|j: int|
                0 <= j < b ==> #[trigger] band_normalised(raw, bank@, j, *positive, *invert, zero),
            forall|f: int, j: int|
                0 <= f < FREQ_BINS && b <= j < ERB_BANDS ==> #[trigger] bank@[at(f, j)] == raw[at(
                    f,
                    j,
                )],
        decreases ERB_BANDS - b,
    {
        let ghost before = bank@;
        let sum = sum_column(&bank, b, zero);
        proof {
            lemma_column_sum_frame(raw, bank@, b as int, FREQ_BINS as nat, zero, sum);
        }
        let p = positive(sum);
        if p {
            let inv = invert(sum);
            scale_column(&mut bank, b, inv);
            assert(invert.ensures((sum,), inv));
        }
        assert(positive.ensures((sum,), p));
        assert(band_normalised(raw, bank@, b as int, *positive, *invert, zero));
        assert forall|j: int| 0 <= j < b + 1 implies #[trigger] band_normalised(
            raw,
            bank@,
            j,
            *positive,
            *invert,
            zero,
        ) by {
            if j < b {
                lemma_normalised_frame(raw, before, bank@, j, *positive, *invert, zero);
            }
        }
        b += 1;
    }
    assert(normalised(raw, bank@, *positive, *invert, zero));
    proof {
        lemma_entries(centers@, freqs@, *weight, *positive, *invert, zero, raw, bank@);
    }
    bank
}

/// A band stays normalised while its own weights stay as they are.
proof fn lemma_normalised_frame<
    T: Add<Output = T> + Mul<Output = T>,
    P: Fn(T) -> bool,
    I: Fn(T) -> T,
>(raw: Seq<T>, a: Seq<T>, c: Seq<T>, b: int, positive: P, invert: I, zero: T)
    requires
        band_normalised(raw, a, b, positive, invert, zero),
        forall|f: int| 0 <= f < FREQ_BINS ==> #[trigger] c[at(f, b)] == a[at(f, b)],
    ensures
        band_normalised(raw, c, b, positive, invert, zero),
{
    let (sum, p) = choose|sum: T, p: bool|
        {
            &&& column_sum(raw, b, FREQ_BINS as nat, zero, sum)
            &&& #[trigger] positive.ensures((sum,), p)
            &&& if p {
                exists|inv: T|
                    {
                        &&& #[trigger] invert.ensures((sum,), inv)
                        &&& forall|f: int|
                            0 <= f < FREQ_BINS ==> product_gives(
                                raw[at(f, b)],
                                inv,
                                #[trigger] a[at(f, b)],
                            )
                    }
            } else {
                forall|f: int| 0 <= f < FREQ_BINS ==> #[trigger] a[at(f, b)] == raw[at(f, b)]
            }
        };
    if p {
        let inv = choose|inv: T|
            {
                &&& #[trigger] invert.ensures((sum,), inv)
                &&& forall|f: int|
                    0 <= f < FREQ_BINS ==> product_gives(raw[at(f, b)], inv, #[trigger] a[at(f, b)])
            };
        assert forall|f: int| 0 <= f < FREQ_BINS implies product_gives(
            raw[at(f, b)],
            inv,
            #[trigger] c[at(f, b)],
        ) by {
            assert(c[at(f, b)] == a[at(f, b)]);
        }
    } else {
        assert forall|f: int| 0 <= f < FREQ_BINS implies #[trigger] c[at(f, b)] == raw[at(f, b)] by {
            assert(c[at(f, b)] == a[at(f, b)]);
        }
    }
}

/// The rows of an inverse bank follow each other.
proof fn lemma_rows(j: int, b: int)
    requires
        0 <= j < b,
    ensures
        (j + 1) * FREQ_BINS == j * FREQ_BINS + FREQ_BINS,
        (j + 1) * FREQ_BINS <= b * FREQ_BINS,
        j * FREQ_BINS >= 0,
{
    assert((j + 1) * FREQ_BINS == j * FREQ_BINS + FREQ_BINS) by (nonlinear_arith);
    assert((j + 1) * FREQ_BINS <= b * FREQ_BINS) by (nonlinear_arith)
        requires
            j + 1 <= b,
    ;
    assert(j * FREQ_BINS >= 0) by (nonlinear_arith)
        requires
            j >= 0,
    ;
}

/// Row `b` of an inverse bank: where the weights of the band sum up to something positive, each is
/// multiplied by the inverse of the sum; else the row is `zero`.
pub open spec fn row_inverted<
    T: Add<Output = T> + Mul<Output = T>,
    P: Fn(T) -> bool,
    I: Fn(T) -> T,
>(bank: Seq<T>, inverse: Seq<T>, b: int, positive: P, invert: I, zero: T) -> bool {
    exists|sum: T, p: bool|
        {
            &&& column_sum(bank, b, FREQ_BINS as nat, zero, sum)
            &&& #[trigger] positive.ensures((sum,), p)
            &&& if p {
                exists|inv: T|
                    {
                        &&& #[trigger] invert.ensures((sum,), inv)
                        &&& forall|f: int|
                            0 <= f < FREQ_BINS ==> product_gives(
                                bank[at(f, b)],
                                inv,
                                #[trigger] inverse[inverse_at(b, f)],
                            )
                    }
            } else {
                forall|f: int| 0 <= f < FREQ_BINS ==> #[trigger] inverse[inverse_at(b, f)] == zero
            }
        }
}

/// Appends row `b` of an inverse bank.
fn push_row<T: Copy + Mul<Output = T>>(
    inverse: &mut Vec<T>,
    bank: &Vec<T>,
    b: usize,
    scale: Option<T>,
    zero: T,
)
    requires
        multiplies::<T>(),
        b < ERB_BANDS,
        bank@.len() == FREQ_BINS * ERB_BANDS,
        old(inverse)@.len() == b * FREQ_BINS,
    ensures
        final(inverse)@.len() == (b + 1) * FREQ_BINS,
        forall|k: int| 0 <= k < b * FREQ_BINS ==> #[trigger] final(inverse)@[k] == old(inverse)@[k],
        forall|f: int|
            0 <= f < FREQ_BINS ==> match scale {
                Some(inv) => product_gives(
                    bank@[at(f, b as int)],
                    inv,
                    #[trigger] final(inverse)@[inverse_at(b as int, f)],
                ),
                None => final(inverse)@[inverse_at(b as int, f)] == zero,
            },
{
    let mut f: usize = 0;
    while f < FREQ_BINS
        invariant
            f <= FREQ_BINS,
            multiplies::<T>(),
            b < ERB_BANDS,
            bank@.len() == FREQ_BINS * ERB_BANDS,
            inverse@.len() == b * FREQ_BINS + f,
            forall|k: int| 0 <= k < b * FREQ_BINS ==> #[trigger] inverse@[k] == old(inverse)@[k],
            old(inverse)@.len() == b * FREQ_BINS,
            forall|i: int|
                0 <= i < f ==> match scale {
                    Some(inv) => product_gives(
                        bank@[at(i, b as int)],
                        inv,
                        #[trigger] inverse@[inverse_at(b as int, i)],
                    ),
                    None => inverse@[inverse_at(b as int, i)] == zero,
                },
        decreases FREQ_BINS - f,
    {
        let ghost before = inverse@;
        let w = match scale {
            Some(inv) => {
                let k: usize = f * ERB_BANDS + b;
                assert(call_requires(<T as Mul>::mul, (bank@[k as int], inv)));
                let w = bank[k] * inv;
                assert(product_gives(bank@[at(f as int, b as int)], inv, w));
                w
            },
            None => zero,
        };
        inverse.push(w);
        assert forall|i: int| 0 <= i < f + 1 implies match scale {
            Some(inv) => product_gives(
                bank@[at(i, b as int)],
                inv,
                #[trigger] inverse@[inverse_at(b as int, i)],
            ),
            None => inverse@[inverse_at(b as int, i)] == zero,
        } by {
            if i < f {
                assert(inverse@[inverse_at(b as int, i)] == before[inverse_at(b as int, i)]);
            }
        }
        f += 1;
    }
    proof {
        lemma_rows(b as int, b + 1);
    }
}

/// The inverse of a bank: one row of weights per band, normalised.
pub fn compute_erb_inv_fb<
    T: Copy + Add<Output = T> + Mul<Output = T>,
    P: Fn(T) -> bool,
    I: Fn(T) -> T,
>(erb_fb: &Vec<T>, positive: &P, invert: &I, zero: T) -> (inverse: Vec<T>)
    requires
        adds::<T>(),
        multiplies::<T>(),
        erb_fb@.len() == FREQ_BINS * ERB_BANDS,
        forall|x: T| #[trigger] positive.requires((x,)),
        forall|x: T| #[trigger] invert.requires((x,)),
    ensures
        inverse@.len() == ERB_BANDS * FREQ_BINS,
        forall|b: int|
            0 <= b < ERB_BANDS ==> #[trigger] row_inverted(
                erb_fb@,
                inverse@,
                b,
                *positive,
                *invert,
                zero,
            ),
{
    let mut inverse: Vec<T> = Vec::with_capacity(ERB_BANDS * FREQ_BINS);
    let mut b: usize = 0;
    while b < ERB_BANDS
        invariant
            b <= ERB_BANDS,
            adds::<T>(),
            multiplies::<T>(),
            erb_fb@.len() == FREQ_BINS * ERB_BANDS,
            forall|x: T| #[trigger] positive.requires((x,)),
            forall|x: T| #[trigger] invert.requires((x,)),
            inverse@.len() == b * FREQ_BINS,
            forall|j: int|
                0 <= j < b ==> #[trigger] row_inverted(
                    erb_fb@,
                    inverse@,
                    j,
                    *positive,
                    *invert,
                    zero,
                ),
        decreases ERB_BANDS - b,
    {
        let ghost before = inverse@;
        let sum = sum_column(erb_fb, b, zero);
        let p = positive(sum);
        let scale = if p {
            Some(invert(sum))
        } else {
            None
        };
        push_row(&mut inverse, erb_fb, b, scale, zero);
        assert(positive.ensures((sum,), p));
        assert(p ==> invert.ensures((sum,), scale->Some_0));
        assert(row_inverted(erb_fb@, inverse@, b as int, *positive, *invert, zero));
        assert forall|j: int| 0 <= j < b + 1 implies #[trigger] row_inverted(
            erb_fb@,
            inverse@,
            j,
            *positive,
            *invert,
            zero,
        ) by {
            if j < b {
                lemma_rows(j, b as int);
                lemma_row_frame(erb_fb@, before, inverse@, j, *positive, *invert, zero);
            }
        }
        b += 1;
    }
    inverse
}

/// A row of an inverse bank stays what it is when rows are appended.
proof fn lemma_row_frame<
    T: Add<Output = T> + Mul<Output = T>,
    P: Fn(T) -> bool,
    I: Fn(T) -> T,
>(bank: Seq<T>, a: Seq<T>, c: Seq<T>, b: int, positive: P, invert: I, zero: T)
    requires
        0 <= b,
        (b + 1) * FREQ_BINS <= a.len(),
        row_inverted(bank, a, b, positive, invert, zero),
        forall|k: int| 0 <= k < a.len() ==> #[trigger] c[k] == a[k],
    ensures
        row_inverted(bank, c, b, positive, invert, zero),
{
    lemma_rows(b, b + 1);
    let (sum, p) = choose|sum: T, p: bool|
        {
            &&& column_sum(bank, b, FREQ_BINS as nat, zero, sum)
            &&& #[trigger] positive.ensures((sum,), p)
            &&& if p {
                exists|inv: T|
                    {
                        &&& #[trigger] invert.ensures((sum,), inv)
                        &&& forall|f: int|
                            0 <= f < FREQ_BINS ==> product_gives(
                                bank[at(f, b)],
                                inv,
                                #[trigger] a[inverse_at(b, f)],
                            )
                    }
            } else {
                forall|f: int| 0 <= f < FREQ_BINS ==> #[trigger] a[inverse_at(b, f)] == zero
            }
        };
    if p {
        let inv = choose|inv: T|
            {
                &&& #[trigger] invert.ensures((sum,), inv)
                &&& forall|f: int|
                    0 <= f < FREQ_BINS ==> product_gives(
                        bank[at(f, b)],
                        inv,
                        #[trigger] a[inverse_at(b, f)],
                    )
            };
        assert forall|f: int| 0 <= f < FREQ_BINS implies product_gives(
            bank[at(f, b)],
            inv,
            #[trigger] c[inverse_at(b, f)],
        ) by {
            assert(c[inverse_at(b, f)] == a[inverse_at(b, f)]);
        }
    } else {
        assert forall|f: int| 0 <= f < FREQ_BINS implies #[trigger] c[inverse_at(b, f)] == zero by {
            assert(c[inverse_at(b, f)] == a[inverse_at(b, f)]);
        }
    }
}

/// A table of what `f` gives for each position.
pub open spec fn tabulated<T, F: Fn(usize) -> T>(f: F, table: Seq<T>) -> bool {
    forall|i: int| 0 <= i < table.len() ==> f.ensures((i as usize,), #[trigger] table[i])
}

/// Tabulates the first `n` values of `f`.
fn tabulate<T, F: Fn(usize) -> T>(n: usize, f: &F) -> (table: Vec<T>)
    requires
        forall|i: usize| #[trigger] f.requires((i,)),
    ensures
        table@.len() == n,
        tabulated(*f, table@),
{
    let mut table: Vec<T> = Vec::with_capacity(n);
    while table.len() < n
        invariant
            table@.len() <= n,
            forall|i: usize| #[trigger] f.requires((i,)),
            tabulated(*f, table@),
        decreases n - table@.len(),
    {
        let ghost before = table@;
        let i: usize = table.len();
        let value = f(i);
        table.push(value);
        assert forall|j: int| 0 <= j < table@.len() implies f.ensures(
            (j as usize,),
            #[trigger] table@[j],
        ) by {
            if j < before.len() {
                assert(table@[j] == before[j]);
            }
        }
    }
    table
}

/// The window of the transform: `value` at each of its positions.
pub fn compute_vorbis_window<T, F: Fn(usize) -> T>(value: &F) -> (window: Vec<T>)
    requires
        forall|i: usize| #[trigger] value.requires((i,)),
    ensures
        window@.len() == FFT_SIZE,
        tabulated(*value, window@),
{
    tabulate(FFT_SIZE, value)
}

/// The tables that spectra are computed with.
pub struct Auxiliary<T> {
    /// Weights bin by bin.
    pub erb_fb: Vec<T>,
    /// Weights band by band.
    pub erb_inv_fb: Vec<T>,
    pub window: Vec<T>,
}

impl<T: Copy + Add<Output = T> + Mul<Output = T>> Auxiliary<T> {
    /// Computes the tables: `center` gives the centers of the bands and their neighbours, `freq` the
    /// frequencies of the bins, and `value` the window.
    pub fn new<
        A: Fn(usize) -> T,
        B: Fn(usize) -> T,
        C: Fn(usize) -> T,
        W: Fn(T, T, T, T) -> T,
        P: Fn(T) -> bool,
        I: Fn(T) -> T,
    >(center: A, freq: B, value: C, weight: W, positive: P, invert: I, zero: T) -> (aux: Self)
        requires
            adds::<T>(),
            multiplies::<T>(),
            forall|i: usize| #[trigger] center.requires((i,)),
            forall|i: usize| #[trigger] freq.requires((i,)),
            forall|i: usize| #[trigger] value.requires((i,)),
            forall|l: T, c: T, u: T, f: T| #[trigger] weight.requires((l, c, u, f)),
            forall|x: T| #[trigger] positive.requires((x,)),
            forall|x: T| #[trigger] invert.requires((x,)),
        ensures
            aux.window@.len() == FFT_SIZE,
            tabulated(value, aux.window@),
            aux.erb_fb@.len() == FREQ_BINS * ERB_BANDS,
            exists|centers: Seq<T>, freqs: Seq<T>, raw: Seq<T>|
                {
                    &&& centers.len() == ERB_BANDS + 2
                    &&& freqs.len() == FREQ_BINS
                    &&& tabulated(center, centers)
                    &&& tabulated(freq, freqs)
                    &&& #[trigger] weighed(centers, freqs, weight, raw)
                    &&& normalised(raw, aux.erb_fb@, positive, invert, zero)
                    &&& forall|k: int|
                        #![trigger aux.erb_fb@[k]]
                        0 <= k < FREQ_BINS * ERB_BANDS ==> from_weight(
                            centers[k % (ERB_BANDS as int)],
                            centers[k % (ERB_BANDS as int) + 1],
                            centers[k % (ERB_BANDS as int) + 2],
                            freqs[k / (ERB_BANDS as int)],
                            weight,
                            positive,
                            invert,
                            aux.erb_fb@[k],
                        )
                },
            forall|i: int| 0 <= i < FFT_SIZE ==> value.ensures((i as usize,), #[trigger] aux.window@[i]),
            aux.erb_inv_fb@.len() == ERB_BANDS * FREQ_BINS,
            forall|b: int|
                0 <= b < ERB_BANDS ==> #[trigger] row_inverted(
                    aux.erb_fb@,
                    aux.erb_inv_fb@,
                    b,
                    positive,
                    invert,
                    zero,
                ),
    {
        let centers = tabulate(ERB_BANDS + 2, &center);
        let freqs = tabulate(FREQ_BINS, &freq);
        let erb_fb = compute_erb_fb(&centers, &freqs, &weight, &positive, &invert, zero);
        let erb_inv_fb = compute_erb_inv_fb(&erb_fb, &positive, &invert, zero);
        Auxiliary { erb_fb, erb_inv_fb, window: compute_vorbis_window(&value) }
    }
}

/// What a bank holds of a bin in a band comes from the weight of that very bin in that very band. Let `keeps`
/// be anything that every such weight has and that scaling a band keeps; then the bank has it there: zero
/// stays zero, positive stays positive.
pub proof fn lemma_bank_keeps_its_weights<
    T: Add<Output = T> + Mul<Output = T>,
    W: Fn(T, T, T, T) -> T,
    P: Fn(T) -> bool,
    I: Fn(T) -> T,
>(
    keeps: spec_fn(T) -> bool,
    centers: Seq<T>,
    freqs: Seq<T>,
    weight: W,
    positive: P,
    invert: I,
    zero: T,
    raw: Seq<T>,
    bank: Seq<T>,
    f: int,
    b: int,
)
    requires
        weighed(centers, freqs, weight, raw),
        normalised(raw, bank, positive, invert, zero),
        0 <= f < 481,
        0 <= b < 32,
        forall|w: T| #[trigger]
            weight.ensures((centers[b], centers[b + 1], centers[b + 2], freqs[f]), w) ==> keeps(w),
        forall|sum: T, inv: T, x: T, y: T|
            #![trigger invert.ensures((sum,), inv), product_gives(x, inv, y)]
            keeps(x) && positive.ensures((sum,), true) && invert.ensures((sum,), inv) && product_gives(
                x,
                inv,
                y,
            ) ==> keeps(y),
    ensures
        keeps(bank[f * 32 + b]),
{
    assert(bank[at(f, b)] == bank[f * 32 + b]);
    assert(weight.ensures((centers[b], centers[b + 1], centers[b + 2], freqs[f]), raw[at(f, b)]));
    assert(band_normalised(raw, bank, b, positive, invert, zero));
}

/// What a band sums up to, in so many words: the weights of all its bins.
proof fn lemma_column_total<T: Add<Output = T> + Mul<Output = T>>(
    value: spec_fn(T) -> int,
    bank: Seq<T>,
    b: int,
    n: nat,
    zero: T,
    sum: T,
    term: spec_fn(int) -> int,
)
    requires
        exact(value, zero),
        column_sum(bank, b, n, zero, sum),
        forall|f: int| 0 <= f < n ==> #[trigger] term(f) == value(bank[f * 32 + b]),
    ensures
        value(sum) == total(term, n),
    decreases n,
{
    if n > 0 {
        let prev = choose|prev: T|
            #[trigger] sum_gives(prev, bank[at(n - 1, b)], sum) && column_sum(
                bank,
                b,
                (n - 1) as nat,
                zero,
                prev,
            );
        lemma_column_total(value, bank, b, (n - 1) as nat, zero, prev, term);
        assert(term(n - 1) == value(bank[(n - 1) * 32 + b]));
    }
}

/// Normalising, in so many words: with `sum` the sum of a band's weights over all 481 bins, every weight of
/// the band is multiplied by the one inverse of `sum` where `sum` is positive, and none changes where it is
/// not.
pub proof fn lemma_band_is_scaled_by_its_sum<
    T: Add<Output = T> + Mul<Output = T>,
    P: Fn(T) -> bool,
    I: Fn(T) -> T,
>(
    value: spec_fn(T) -> int,
    before: Seq<T>,
    after: Seq<T>,
    b: int,
    positive: P,
    invert: I,
    zero: T,
)
    requires
        exact(value, zero),
        0 <= b < 32,
        normalised(before, after, positive, invert, zero),
    ensures
        exists|sum: T, p: bool| #[trigger]
            positive.ensures((sum,), p) && value(sum) == total(|f: int| value(before[f * 32 + b]), 481) && (
            !p ==> forall|f: int|
                #![trigger after[f * 32 + b]]
                0 <= f < 481 ==> after[f * 32 + b] == before[f * 32 + b]) && (p ==> exists|inv: T| #[trigger]
                invert.ensures((sum,), inv) && forall|f: int|
                    #![trigger after[f * 32 + b]]
                    0 <= f < 481 ==> value(after[f * 32 + b]) == value(before[f * 32 + b]) * value(inv)),
{
    assert(band_normalised(before, after, b, positive, invert, zero));
    let term = |f: int| value(before[f * 32 + b]);
    let (sum, p) = choose|sum: T, p: bool|
        {
            &&& column_sum(before, b, FREQ_BINS as nat, zero, sum)
            &&& #[trigger] positive.ensures((sum,), p)
            &&& if p {
                exists|inv: T|
                    {
                        &&& #[trigger] invert.ensures((sum,), inv)
                        &&& forall|f: int|
                            0 <= f < FREQ_BINS ==> product_gives(
                                before[at(f, b)],
                                inv,
                                #[trigger] after[at(f, b)],
                            )
                    }
            } else {
                forall|f: int| 0 <= f < FREQ_BINS ==> #[trigger] after[at(f, b)] == before[at(f, b)]
            }
        };
    lemma_column_total(value, before, b, 481, zero, sum, term);
    if p {
        let inv = choose|inv: T|
            {
                &&& #[trigger] invert.ensures((sum,), inv)
                &&& forall|f: int|
                    0 <= f < FREQ_BINS ==> product_gives(
                        before[at(f, b)],
                        inv,
                        #[trigger] after[at(f, b)],
                    )
            };
        assert forall|f: int|
            #![trigger after[f * 32 + b]]
            0 <= f < 481 implies value(after[f * 32 + b]) == value(before[f * 32 + b]) * value(inv) by {
            assert(product_gives(before[at(f, b)], inv, after[at(f, b)]));
        }
    } else {
        assert forall|f: int|
            #![trigger after[f * 32 + b]]
            0 <= f < 481 implies after[f * 32 + b] == before[f * 32 + b] by {
            assert(after[at(f, b)] == before[at(f, b)]);
        }
    }
}

/// Inverting, in so many words: the weight of band `b` in bin `f` stands at `b * 481 + f` of the inverse and
/// comes from the weight at `f * 32 + b` of the bank, multiplied by the one inverse of the sum of the band
/// over all 481 bins; where that sum is not positive the band is `zero` throughout.
pub proof fn lemma_inverse_turns_the_bank<
    T: Add<Output = T> + Mul<Output = T>,
    P: Fn(T) -> bool,
    I: Fn(T) -> T,
>(
    value: spec_fn(T) -> int,
    bank: Seq<T>,
    inverse: Seq<T>,
    b: int,
    positive: P,
    invert: I,
    zero: T,
)
    requires
        exact(value, zero),
        0 <= b < 32,
        row_inverted(bank, inverse, b, positive, invert, zero),
    ensures
        exists|sum: T, p: bool| #[trigger]
            positive.ensures((sum,), p) && value(sum) == total(|f: int| value(bank[f * 32 + b]), 481) && (!p
                ==> forall|f: int|
                #![trigger inverse[b * 481 + f]]
                0 <= f < 481 ==> inverse[b * 481 + f] == zero) && (p ==> exists|inv: T| #[trigger]
                invert.ensures((sum,), inv) && forall|f: int|
                    #![trigger inverse[b * 481 + f]]
                    0 <= f < 481 ==> value(inverse[b * 481 + f]) == value(bank[f * 32 + b]) * value(inv)),
{
    let term = |f: int| value(bank[f * 32 + b]);
    let (sum, p) = choose|sum: T, p: bool|
        {
            &&& column_sum(bank, b, FREQ_BINS as nat, zero, sum)
            &&& #[trigger] positive.ensures((sum,), p)
            &&& if p {
                exists|inv: T|
                    {
                        &&& #[trigger] invert.ensures((sum,), inv)
                        &&& forall|f: int|
                            0 <= f < FREQ_BINS ==> product_gives(
                                bank[at(f, b)],
                                inv,
                                #[trigger] inverse[inverse_at(b, f)],
                            )
                    }
            } else {
                forall|f: int| 0 <= f < FREQ_BINS ==> #[trigger] inverse[inverse_at(b, f)] == zero
            }
        };
    lemma_column_total(value, bank, b, 481, zero, sum, term);
    if p {
        let inv = choose|inv: T|
            {
                &&& #[trigger] invert.ensures((sum,), inv)
                &&& forall|f: int|
                    0 <= f < FREQ_BINS ==> product_gives(
                        bank[at(f, b)],
                        inv,
                        #[trigger] inverse[inverse_at(b, f)],
                    )
            };
        assert forall|f: int|
            #![trigger inverse[b * 481 + f]]
            0 <= f < 481 implies value(inverse[b * 481 + f]) == value(bank[f * 32 + b]) * value(inv) by {
            assert(product_gives(bank[at(f, b)], inv, inverse[inverse_at(b, f)]));
        }
    } else {
        assert forall|f: int|
            #![trigger inverse[b * 481 + f]]
            0 <= f < 481 implies inverse[b * 481 + f] == zero by {
            assert(inverse[inverse_at(b, f)] == zero);
        }
    }
}

} // verus!
