//! Levels for the meters.
use vstd::prelude::*;
use std::ops::Add;

use crate::dsp::{adds, sum_gives};

verus! {

/// Input and output levels summed up over one status interval.
///
/// A level is pushed as the sum over the two channels of a frame and read back as the mean per channel,
/// so a signal of constant amplitude reads back as that amplitude.
pub struct RmsMeter<T> {
    pub input: T,
    pub output: T,
    /// Channels counted so far: two for each frame.
    pub count: u32,
}

impl<T: Copy> RmsMeter<T> {
    /// A meter that has counted nothing.
    pub fn new(zero: T) -> (meter: Self)
        ensures
            meter.input == zero,
            meter.output == zero,
            meter.count == 0,
    {
        RmsMeter { input: zero, output: zero, count: 0 }
    }

    /// Starts anew.
    pub fn reset(&mut self, zero: T)
        ensures
            final(self).input == zero,
            final(self).output == zero,
            final(self).count == 0,
    {
        *self = RmsMeter::new(zero);
    }

    /// How many frames were counted.
    pub fn frames(&self) -> (n: u32)
        ensures
            n == self.count / 2,
    {
        self.count / 2
    }

    /// The mean of a sum over the channels counted; `zero` where none was, so that nothing is ever
    /// divided by zero.
    fn mean<F: FnOnce(T, u32) -> T>(&self, total: T, divide: F, zero: T) -> (mean: T)
        requires
            forall|t: T, n: u32| n > 0 ==> #[trigger] divide.requires((t, n)),
        ensures
            self.count == 0 ==> mean == zero,
            self.count > 0 ==> divide.ensures((total, self.count), mean),
    {
        if self.count > 0 {
            divide(total, self.count)
        } else {
            zero
        }
    }

    /// The mean input level per channel; `divide` divides a sum by a count.
    pub fn mean_input<F: FnOnce(T, u32) -> T>(&self, divide: F, zero: T) -> (mean: T)
        requires
            forall|t: T, n: u32| n > 0 ==> #[trigger] divide.requires((t, n)),
        ensures
            self.count == 0 ==> mean == zero,
            self.count > 0 ==> divide.ensures((self.input, self.count), mean),
    {
        self.mean(self.input, divide, zero)
    }

    /// The mean output level per channel; `divide` divides a sum by a count.
    pub fn mean_output<F: FnOnce(T, u32) -> T>(&self, divide: F, zero: T) -> (mean: T)
        requires
            forall|t: T, n: u32| n > 0 ==> #[trigger] divide.requires((t, n)),
        ensures
            self.count == 0 ==> mean == zero,
            self.count > 0 ==> divide.ensures((self.output, self.count), mean),
    {
        self.mean(self.output, divide, zero)
    }
}

/// A frame with these levels was counted.
pub open spec fn counted<T: Add<Output = T>>(
    before: RmsMeter<T>,
    after: RmsMeter<T>,
    input: T,
    output: T,
) -> bool {
    &&& sum_gives(before.input, input, after.input)
    &&& sum_gives(before.output, output, after.output)
    &&& after.count == before.count + 2
}

impl<T: Copy + Add<Output = T>> RmsMeter<T> {
    /// Counts one frame. Both levels are sums over its two channels.
    pub fn push(&mut self, input: T, output: T)
        requires
            call_requires(<T as Add>::add, (old(self).input, input)),
            call_requires(<T as Add>::add, (old(self).output, output)),
            old(self).count <= u32::MAX - 2,
        ensures
            counted(*old(self), *final(self), input, output),
    {
        self.input = self.input + input;
        self.output = self.output + output;
        self.count = self.count + 2;
    }
}

/// Whether `z` stands for the sum of what `x` and `y` stand for, whichever way they are added: `value` is
/// the number that a `T` stands for, in units of its smallest step.
pub open spec fn exact_sum<T: Add<Output = T>>(value: spec_fn(T) -> int, x: T, y: T) -> bool {
    forall|z: T| #[trigger] sum_gives(x, y, z) ==> value(z) == value(x) + value(y)
}

/// Meters after zero, one, two and more frames that all have the same levels, with exact sums.
pub open spec fn constant_run<T: Add<Output = T>>(
    meters: Seq<RmsMeter<T>>,
    value: spec_fn(T) -> int,
    input: T,
    output: T,
) -> bool {
    &&& meters.len() > 0
    &&& meters[0].count == 0
    &&& value(meters[0].input) == 0
    &&& value(meters[0].output) == 0
    &&& forall|i: int|
        0 < i < meters.len() ==> {
            &&& counted(meters[i - 1], #[trigger] meters[i], input, output)
            &&& exact_sum(value, meters[i - 1].input, input)
            &&& exact_sum(value, meters[i - 1].output, output)
        }
}

/// What a run of equal frames has summed up to.
proof fn lemma_constant_sums<T: Add<Output = T>>(
    meters: Seq<RmsMeter<T>>,
    value: spec_fn(T) -> int,
    input: T,
    output: T,
    n: int,
)
    requires
        constant_run(meters, value, input, output),
        0 <= n < meters.len(),
    ensures
        value(meters[n].input) == n * value(input),
        value(meters[n].output) == n * value(output),
        meters[n].count == 2 * n,
    decreases n,
{
    if n > 0 {
        lemma_constant_sums(meters, value, input, output, n - 1);
        assert(counted(meters[n - 1], meters[n], input, output));
        assert(n * value(input) == (n - 1) * value(input) + value(input)) by (nonlinear_arith);
        assert(n * value(output) == (n - 1) * value(output) + value(output)) by (nonlinear_arith);
    } else {
        assert(n * value(input) == 0) by (nonlinear_arith)
            requires
                n == 0,
        ;
        assert(n * value(output) == 0) by (nonlinear_arith)
            requires
                n == 0,
        ;
    }
}

/// Whether `divide` divides `total` by `n` without a rest or a rounding.
pub open spec fn exact_quotient<T, F: FnOnce(T, u32) -> T>(
    value: spec_fn(T) -> int,
    divide: F,
    total: T,
    n: u32,
) -> bool {
    forall|mean: T| #[trigger] divide.ensures((total, n), mean) ==> value(mean) * n == value(total)
}

/// A constant amplitude reads back as that amplitude, not as the sum over the two channels, however many
/// frames were counted: after `n` frames whose levels are twice `a` and twice `b`, with exact sums and
/// quotients, the means are `a` and `b`, and `n` frames were counted.
pub proof fn lemma_constant_amplitude<T: Add<Output = T>, F: FnOnce(T, u32) -> T>(
    meters: Seq<RmsMeter<T>>,
    value: spec_fn(T) -> int,
    input: T,
    output: T,
    a: int,
    b: int,
    divide: F,
    mean_input: T,
    mean_output: T,
)
    requires
        constant_run(meters, value, input, output),
        meters.len() > 1,
        value(input) == 2 * a,
        value(output) == 2 * b,
        divide.ensures((meters.last().input, meters.last().count), mean_input),
        divide.ensures((meters.last().output, meters.last().count), mean_output),
        exact_quotient(value, divide, meters.last().input, meters.last().count),
        exact_quotient(value, divide, meters.last().output, meters.last().count),
    ensures
        value(mean_input) == a,
        value(mean_output) == b,
        meters.last().count / 2 == meters.len() - 1,
{
    let n = meters.len() - 1;
    lemma_constant_sums(meters, value, input, output, n);
    let x = value(mean_input);
    let y = value(mean_output);
    assert(x == a) by (nonlinear_arith)
        requires
            x * (2 * n) == n * (2 * a),
            n > 0,
    ;
    assert(y == b) by (nonlinear_arith)
        requires
            y * (2 * n) == n * (2 * b),
            n > 0,
    ;
}

/// Levels that are whole numbers of some unit are counted exactly: after `n` frames at `2 * a` and `2 * b`,
/// as long as the sums fit, the sums divided by the count are `a` and `b`.
pub proof fn lemma_constant_amplitude_in_units(meters: Seq<RmsMeter<u64>>, a: u64, b: u64)
    requires
        meters.len() > 1,
        meters[0].input == 0,
        meters[0].output == 0,
        meters[0].count == 0,
        forall|i: int|
            0 < i < meters.len() ==> counted(
                meters[i - 1],
                #[trigger] meters[i],
                (2 * a) as u64,
                (2 * b) as u64,
            ),
        (meters.len() - 1) * (2 * a) <= u64::MAX,
        (meters.len() - 1) * (2 * b) <= u64::MAX,
    ensures
        meters.last().count == 2 * (meters.len() - 1),
        meters.last().input == meters.last().count * a,
        meters.last().output == meters.last().count * b,
        meters.last().input / meters.last().count as u64 == a,
        meters.last().output / meters.last().count as u64 == b,
{
    let n = meters.len() - 1;
    assert(2 * a <= n * (2 * a) && 2 * b <= n * (2 * b)) by (nonlinear_arith)
        requires
            n >= 1,
            a >= 0,
            b >= 0,
    ;
    lemma_unit_sums(meters, a, b, n);
    assert(n * (2 * a) == (2 * n) * a && n * (2 * b) == (2 * n) * b) by (nonlinear_arith);
    assert(((2 * n) * a) / (2 * n) == a && ((2 * n) * b) / (2 * n) == b) by (nonlinear_arith)
        requires
            n >= 1,
    ;
}

/// What a run of equal frames has summed up to, in whole units.
proof fn lemma_unit_sums(meters: Seq<RmsMeter<u64>>, a: u64, b: u64, n: int)
    requires
        0 <= n < meters.len(),
        meters[0].input == 0,
        meters[0].output == 0,
        meters[0].count == 0,
        2 * a <= u64::MAX,
        2 * b <= u64::MAX,
        forall|i: int|
            0 < i < meters.len() ==> counted(
                meters[i - 1],
                #[trigger] meters[i],
                (2 * a) as u64,
                (2 * b) as u64,
            ),
        n * (2 * a) <= u64::MAX,
        n * (2 * b) <= u64::MAX,
    ensures
        meters[n].input == n * (2 * a),
        meters[n].output == n * (2 * b),
        meters[n].count == 2 * n,
    decreases n,
{
    if n > 0 {
        assert(n * (2 * a) == (n - 1) * (2 * a) + 2 * a) by (nonlinear_arith);
        assert(n * (2 * b) == (n - 1) * (2 * b) + 2 * b) by (nonlinear_arith);
        lemma_unit_sums(meters, a, b, n - 1);
        assert(counted(meters[n - 1], meters[n], (2 * a) as u64, (2 * b) as u64));
    }
}

} // verus!
