//! Stereo files: taking channels apart, putting them together, and denoising them chunk by chunk.
use vstd::prelude::*;

use crate::chunk::{channel, interleaved, StereoChunk, CHUNK};
use crate::rolling::copy_row;

verus! {

/// The right channel of interleaved samples: the second one, or the only one.
pub open spec fn right_of<T>(samples: Seq<T>, channels: nat) -> Seq<T> {
    if channels >= 2 {
        channel(samples, channels, 1)
    } else {
        channel(samples, channels, 0)
    }
}

/// Takes the first two channels out of interleaved samples; a single channel serves as both.
pub fn split_channels<T: Copy>(samples: &[T], channels: usize) -> (stereo: (Vec<T>, Vec<T>))
    requires
        channels > 0,
    ensures
        stereo.0@ == channel(samples@, channels as nat, 0),
        stereo.1@ == right_of(samples@, channels as nat),
{
    let n: usize = samples.len() / channels;
    let mut left: Vec<T> = Vec::with_capacity(n);
    let mut right: Vec<T> = Vec::with_capacity(n);
    let ghost l = channel(samples@, channels as nat, 0);
    let ghost r = right_of(samples@, channels as nat);
    let mut i: usize = 0;
    while i < n
        invariant
            i <= n,
            channels > 0,
            n == samples@.len() / channels as nat,
            l == channel(samples@, channels as nat, 0),
            r == right_of(samples@, channels as nat),
            left@ == l.take(i as int),
            right@ == r.take(i as int),
        decreases n - i,
    {
        proof {
            assert(samples@.len() == samples.len());
            assert(i * channels + channels <= samples@.len()) by (nonlinear_arith)
                requires
                    i + 1 <= samples@.len() / channels as nat,
                    channels > 0,
            ;
            assert(i * channels >= 0) by (nonlinear_arith);
        }
        left.push(samples[i * channels]);
        if channels >= 2 {
            right.push(samples[i * channels + 1]);
        } else {
            right.push(left[i]);
        }
        i += 1;
        assert(left@ =~= l.take(i as int));
        assert(right@ =~= r.take(i as int));
    }
    assert(left@ =~= l);
    assert(right@ =~= r);
    (left, right)
}

/// Interleaves two channels, as far as both reach.
pub fn merge_channels<T: Copy>(left: &[T], right: &[T]) -> (samples: Vec<T>)
    ensures
        ({
            let n = if left@.len() <= right@.len() {
                left@.len() as int
            } else {
                right@.len() as int
            };
            samples@ == interleaved(left@.take(n), right@.take(n))
        }),
{
    let n: usize = if left.len() < right.len() {
        left.len()
    } else {
        right.len()
    };
    let ghost whole = interleaved(left@.take(n as int), right@.take(n as int));
    let mut samples: Vec<T> = Vec::new();
    let mut i: usize = 0;
    while i < n
        invariant
            i <= n <= left@.len(),
            n <= right@.len(),
            whole == interleaved(left@.take(n as int), right@.take(n as int)),
            samples@ == whole.take(2 * i),
        decreases n - i,
    {
        samples.push(left[i]);
        samples.push(right[i]);
        i += 1;
        assert(samples@ =~= whole.take(2 * i));
    }
    assert(samples@ =~= whole);
    samples
}

/// Each of `to` is what `convert` makes of the number of `from` at its place.
pub open spec fn converted<A, B, F: Fn(A) -> B>(convert: F, from: Seq<A>, to: Seq<B>) -> bool {
    &&& to.len() == from.len()
    &&& forall|i: int| 0 <= i < from.len() ==> convert.ensures((from[i],), #[trigger] to[i])
}

/// Converts samples one by one.
fn convert_all<A: Copy, B, F: Fn(A) -> B>(from: &Vec<A>, convert: &F) -> (to: Vec<B>)
    requires
        forall|a: A| #[trigger] convert.requires((a,)),
    ensures
        converted(*convert, from@, to@),
{
    let mut to: Vec<B> = Vec::with_capacity(from.len());
    let mut i: usize = 0;
    while i < from.len()
        invariant
            i <= from@.len(),
            forall|a: A| #[trigger] convert.requires((a,)),
            to@.len() == i,
            forall|j: int| 0 <= j < i ==> convert.ensures((from@[j],), #[trigger] to@[j]),
        decreases from@.len() - i,
    {
        to.push(convert(from[i]));
        i += 1;
    }
    to
}

/// What a file of two channels stores: the channels interleaved, as far as both reach, each sample in the
/// form that `encode` gives it.
pub fn stored_stereo<T: Copy, Q, F: Fn(T) -> Q>(left: &[T], right: &[T], encode: &F) -> (stored: Vec<
    Q,
>)
    requires
        forall|x: T| #[trigger] encode.requires((x,)),
    ensures
        ({
            let n = if left@.len() <= right@.len() {
                left@.len() as int
            } else {
                right@.len() as int
            };
            converted(*encode, interleaved(left@.take(n), right@.take(n)), stored@)
        }),
{
    let samples = merge_channels(left, right);
    convert_all(&samples, encode)
}

/// The two channels that a file of `channels` channels stores: its first two, each sample as `decode`
/// reads it; a single channel serves as both.
pub fn stereo_from<Q: Copy, T: Copy, F: Fn(Q) -> T>(
    stored: &[Q],
    channels: usize,
    decode: &F,
) -> (stereo: (Vec<T>, Vec<T>))
    requires
        channels > 0,
        forall|q: Q| #[trigger] decode.requires((q,)),
    ensures
        converted(*decode, channel(stored@, channels as nat, 0), stereo.0@),
        channels >= 2 ==> converted(*decode, channel(stored@, channels as nat, 1), stereo.1@),
        channels == 1 ==> stereo.1@ == stereo.0@,
{
    let (l, r) = split_channels(stored, channels);
    let left = convert_all(&l, decode);
    let right = if channels >= 2 {
        convert_all(&r, decode)
    } else {
        copy_row(&left)
    };
    (left, right)
}

/// Two channels that are stored and read again come back in their places, at their full length and none
/// in the place of the other: each sample is as `near` to the one that was stored as one that is encoded
/// and decoded again.
pub proof fn lemma_stored_channels_come_back<T, Q, E: Fn(T) -> Q, D: Fn(Q) -> T>(
    encode: E,
    decode: D,
    near: spec_fn(T, T) -> bool,
    left: Seq<T>,
    right: Seq<T>,
    stored: Seq<Q>,
    left_again: Seq<T>,
    right_again: Seq<T>,
)
    requires
        forall|x: T, q: Q, y: T| #[trigger]
            encode.ensures((x,), q) && #[trigger] decode.ensures((q,), y) ==> near(x, y),
        left.len() == right.len(),
        converted(encode, interleaved(left, right), stored),
        converted(decode, channel(stored, 2, 0), left_again),
        converted(decode, channel(stored, 2, 1), right_again),
    ensures
        left_again.len() == left.len(),
        right_again.len() == right.len(),
        forall|i: int| 0 <= i < left.len() ==> near(left[i], #[trigger] left_again[i]),
        forall|i: int| 0 <= i < right.len() ==> near(right[i], #[trigger] right_again[i]),
{
    let whole = interleaved(left, right);
    assert forall|i: int| 0 <= i < left.len() implies near(left[i], #[trigger] left_again[i]) by {
        assert(whole[2 * i] == left[i]);
        assert(encode.ensures((whole[2 * i],), stored[2 * i]));
        assert(channel(stored, 2, 0)[i] == stored[i * 2]);
    }
    assert forall|i: int| 0 <= i < right.len() implies near(right[i], #[trigger] right_again[i]) by {
        assert(whole[2 * i + 1] == right[i]);
        assert(encode.ensures((whole[2 * i + 1],), stored[2 * i + 1]));
        assert(channel(stored, 2, 1)[i] == stored[i * 2 + 1]);
    }
}

/// Chunk `i` of two channels.
pub open spec fn is_chunk<T>(left: Seq<T>, right: Seq<T>, i: int, chunk: StereoChunk<T>) -> bool {
    &&& chunk.left@ == left.subrange(i * CHUNK, i * CHUNK + CHUNK)
    &&& chunk.right@ == right.subrange(i * CHUNK, i * CHUNK + CHUNK)
}

/// Takes chunk `i` out of two channels.
pub fn chunk_at<T: Copy>(left: &[T], right: &[T], i: usize) -> (chunk: StereoChunk<T>)
    requires
        i * CHUNK + CHUNK <= left@.len(),
        i * CHUNK + CHUNK <= right@.len(),
    ensures
        is_chunk(left@, right@, i as int, chunk),
{
    assert(left@.len() == left.len());
    let start: usize = i * CHUNK;
    let mut l = [left[start]; CHUNK];
    let mut r = [right[start]; CHUNK];
    let mut k: usize = 0;
    while k < CHUNK
        invariant
            k <= CHUNK,
            start == i * CHUNK,
            start + CHUNK <= left@.len() == left.len(),
            start + CHUNK <= right@.len(),
            forall|j: int| 0 <= j < k ==> l@[j] == left@[start + j],
            forall|j: int| 0 <= j < k ==> r@[j] == right@[start + j],
        decreases CHUNK - k,
    {
        l[k] = left[start + k];
        r[k] = right[start + k];
        k += 1;
    }
    assert(l@ =~= left@.subrange(start as int, start + CHUNK));
    assert(r@ =~= right@.subrange(start as int, start + CHUNK));
    StereoChunk { left: l, right: r }
}

/// In going from state `from` to state `to`, the denoiser made chunk `i` of the output of chunk `i` of
/// the input.
pub open spec fn chunk_denoised<S, T, E, F>(
    step: F,
    from: S,
    to: S,
    left: Seq<T>,
    right: Seq<T>,
    out_left: Seq<T>,
    out_right: Seq<T>,
    i: int,
) -> bool where F: Fn(S, &StereoChunk<T>) -> (S, Result<StereoChunk<T>, E>) {
    exists|input: StereoChunk<T>, output: StereoChunk<T>|
        {
            &&& is_chunk(left, right, i, input)
            &&& is_chunk(out_left, out_right, i, output)
            &&& #[trigger] step.ensures((from, &input), (to, Ok(output)))
        }
}

/// The denoiser went through `states`, from the first to the last, and on the way made each of the first
/// chunks of the output of the chunk of the input at its place: one call for each, in their order.
pub open spec fn denoised_run<S, T, E, F>(
    step: F,
    states: Seq<S>,
    left: Seq<T>,
    right: Seq<T>,
    out_left: Seq<T>,
    out_right: Seq<T>,
) -> bool where F: Fn(S, &StereoChunk<T>) -> (S, Result<StereoChunk<T>, E>) {
    &&& states.len() > 0
    &&& out_left.len() == (states.len() - 1) * CHUNK
    &&& out_right.len() == out_left.len()
    &&& forall|i: int|
        0 <= i < states.len() - 1 ==> chunk_denoised(
            step,
            #[trigger] states[i],
            states[i + 1],
            left,
            right,
            out_left,
            out_right,
            i,
        )
}

/// In going from state `from` to state `to`, the denoiser failed on chunk `i`.
pub open spec fn chunk_failed<S, T, E, F>(
    step: F,
    from: S,
    to: S,
    left: Seq<T>,
    right: Seq<T>,
    i: int,
    error: E,
) -> bool where F: Fn(S, &StereoChunk<T>) -> (S, Result<StereoChunk<T>, E>) {
    exists|input: StereoChunk<T>|
        {
            &&& is_chunk(left, right, i, input)
            &&& #[trigger] step.ensures((from, &input), (to, Err(error)))
        }
}

/// Appends the samples of a chunk's channel.
fn append<T: Copy>(samples: &mut Vec<T>, channel: &[T; CHUNK])
    ensures
        final(samples)@ == old(samples)@ + channel@,
{
    let ghost before = samples@;
    let mut k: usize = 0;
    while k < CHUNK
        invariant
            k <= CHUNK,
            samples@ == before + channel@.take(k as int),
        decreases CHUNK - k,
    {
        samples.push(channel[k]);
        k += 1;
        assert(samples@ =~= before + channel@.take(k as int));
    }
    assert(channel@.take(k as int) =~= channel@);
}

/// Denoises two channels chunk by chunk. The denoiser carries a state from one chunk to the next: `state`
/// is the one it starts in, and the one it ends in is given back. Samples that do not fill a chunk are
/// left out, and the first failure of the denoiser ends the work.
pub fn denoise_stereo<T: Copy, S, E, F: Fn(S, &StereoChunk<T>) -> (S, Result<StereoChunk<T>, E>)>(
    left: &[T],
    right: &[T],
    state: S,
    step: F,
) -> (out: (S, Result<(Vec<T>, Vec<T>), E>))
    requires
        right@.len() >= left@.len() - left@.len() % CHUNK as nat,
        forall|s: S, chunk: &StereoChunk<T>| #[trigger] step.requires((s, chunk)),
    ensures
        match out.1 {
            Ok((l, r)) => exists|states: Seq<S>|
                {
                    &&& #[trigger] denoised_run(step, states, left@, right@, l@, r@)
                    &&& states.len() == left@.len() / CHUNK as nat + 1
                    &&& states.first() == state
                    &&& states.last() == out.0
                },
            Err(error) => exists|states: Seq<S>, l: Seq<T>, r: Seq<T>|
                {
                    &&& #[trigger] denoised_run(step, states, left@, right@, l, r)
                    &&& states.len() <= left@.len() / CHUNK as nat
                    &&& states.first() == state
                    &&& chunk_failed(
                        step,
                        states.last(),
                        out.0,
                        left@,
                        right@,
                        states.len() - 1,
                        error,
                    )
                },
        },
{
    let n_frames: usize = left.len() / CHUNK;
    let mut l: Vec<T> = Vec::new();
    let mut r: Vec<T> = Vec::new();
    let ghost mut states: Seq<S> = seq![state];
    let mut current: S = state;
    let mut i: usize = 0;
    while i < n_frames
        invariant
            i <= n_frames,
            n_frames == left@.len() / CHUNK as nat,
            right@.len() >= left@.len() - left@.len() % CHUNK as nat,
            forall|s: S, chunk: &StereoChunk<T>| #[trigger] step.requires((s, chunk)),
            states.len() == i + 1,
            states.first() == state,
            states.last() == current,
            denoised_run(step, states, left@, right@, l@, r@),
        decreases n_frames - i,
    {
        let input = chunk_at(left, right, i);
        let (next, answer) = step(current, &input);
        current = next;
        let output = match answer {
            Ok(output) => output,
            Err(error) => {
                assert(is_chunk(left@, right@, i as int, input));
                assert(chunk_failed(step, states.last(), current, left@, right@, i as int, error));
                return (current, Err(error));
            },
        };
        let ghost l0 = l@;
        let ghost r0 = r@;
        let ghost states0 = states;
        append(&mut l, &output.left);
        append(&mut r, &output.right);
        proof {
            states = states.push(current);
            assert forall|j: int| 0 <= j < states.len() - 1 implies chunk_denoised(
                step,
                #[trigger] states[j],
                states[j + 1],
                left@,
                right@,
                l@,
                r@,
                j,
            ) by {
                if j < i {
                    assert(states[j] == states0[j] && states[j + 1] == states0[j + 1]);
                    assert(chunk_denoised(
                        step,
                        states0[j],
                        states0[j + 1],
                        left@,
                        right@,
                        l0,
                        r0,
                        j,
                    ));
                    let (a, b) = choose|a: StereoChunk<T>, b: StereoChunk<T>|
                        {
                            &&& is_chunk(left@, right@, j, a)
                            &&& is_chunk(l0, r0, j, b)
                            &&& #[trigger] step.ensures((states0[j], &a), (states0[j + 1], Ok(b)))
                        };
                    assert(l@.subrange(j * CHUNK, j * CHUNK + CHUNK) =~= l0.subrange(
                        j * CHUNK,
                        j * CHUNK + CHUNK,
                    ));
                    assert(r@.subrange(j * CHUNK, j * CHUNK + CHUNK) =~= r0.subrange(
                        j * CHUNK,
                        j * CHUNK + CHUNK,
                    ));
                    assert(is_chunk(l@, r@, j, b));
                } else {
                    assert(l@.subrange(i * CHUNK, i * CHUNK + CHUNK) =~= output.left@);
                    assert(r@.subrange(i * CHUNK, i * CHUNK + CHUNK) =~= output.right@);
                    assert(is_chunk(l@, r@, i as int, output));
                    assert(step.ensures((states0.last(), &input), (current, Ok(output))));
                }
            }
        }
        i += 1;
    }
    let out: (S, Result<(Vec<T>, Vec<T>), E>) = (current, Ok((l, r)));
    assert(denoised_run(step, states, left@, right@, out.1->Ok_0.0@, out.1->Ok_0.1@));
    out
}

/// What the right channel is made of: the second sample of each group, and the only one of a mono file.
pub proof fn lemma_right_channel<T>(samples: Seq<T>, channels: nat, i: int)
    requires
        0 < channels,
        0 <= i < samples.len() / channels,
    ensures
        right_of(samples, channels).len() == samples.len() / channels,
        channels == 1 ==> right_of(samples, channels)[i] == samples[i],
        channels >= 2 ==> right_of(samples, channels)[i] == samples[i * channels + 1],
{
}

/// A chunk is a stretch of both channels, and the next begins where it ends.
pub proof fn lemma_chunk_by_sample<T>(left: Seq<T>, right: Seq<T>, i: int, chunk: StereoChunk<T>, j: int)
    requires
        is_chunk(left, right, i, chunk),
        0 <= i,
        480 * (i + 1) <= left.len(),
        480 * (i + 1) <= right.len(),
        0 <= j < 480,
    ensures
        chunk.left@[j] == left[480 * i + j],
        chunk.right@[j] == right[480 * i + j],
{
}

/// A file is denoised chunk by chunk: each run takes up where the one before it has ended, is given both
/// channels of one chunk, and its answer stands in the same place.
pub proof fn lemma_file_chunk_by_chunk<S, T, E, F>(
    step: F,
    states: Seq<S>,
    left: Seq<T>,
    right: Seq<T>,
    out_left: Seq<T>,
    out_right: Seq<T>,
    i: int,
) where F: Fn(S, &StereoChunk<T>) -> (S, Result<StereoChunk<T>, E>)
    requires
        denoised_run(step, states, left, right, out_left, out_right),
        0 <= i < states.len() - 1,
        480 * (states.len() - 1) <= left.len(),
        left.len() == right.len(),
    ensures
        out_left.len() == 480 * (states.len() - 1),
        out_right.len() == out_left.len(),
        exists|input: StereoChunk<T>, output: StereoChunk<T>|
            {
                &&& #[trigger] step.ensures((states[i], &input), (states[i + 1], Ok(output)))
                &&& input.left@ == left.subrange(480 * i, 480 * i + 480)
                &&& input.right@ == right.subrange(480 * i, 480 * i + 480)
                &&& output.left@ == out_left.subrange(480 * i, 480 * i + 480)
                &&& output.right@ == out_right.subrange(480 * i, 480 * i + 480)
            },
{
    assert(chunk_denoised(
        step,
        states[i],
        states[i + 1],
        left,
        right,
        out_left,
        out_right,
        i,
    ));
}

} // verus!
