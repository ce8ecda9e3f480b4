//! Ten-millisecond stereo chunks and their interleaved form.
use vstd::prelude::*;

verus! {

/// Samples per channel in one chunk (10 ms at 48 kHz).
pub const CHUNK: usize = 480;

/// Samples of one chunk with its two channels interleaved.
pub const FRAME_SIZE: usize = CHUNK * 2;

/// One chunk of stereo audio, channel by channel.
pub struct StereoChunk<T> {
    pub left: [T; CHUNK],
    pub right: [T; CHUNK],
}

/// The interleaved form of two channels: left and right samples in turn.
pub open spec fn interleaved<T>(left: Seq<T>, right: Seq<T>) -> Seq<T> {
    Seq::new(
        2 * left.len(),
        |i: int|
            if i % 2 == 0 {
                left[i / 2]
            } else {
                right[i / 2]
            },
    )
}

/// The samples of channel `c` in a frame of `channels` interleaved ones; an incomplete last
/// group is left out.
pub open spec fn channel<T>(frame: Seq<T>, channels: nat, c: nat) -> Seq<T> {
    Seq::new(frame.len() / channels, |i: int| frame[i * channels + c])
}

impl<T> StereoChunk<T> {
    /// The chunk as one interleaved frame.
    pub open spec fn frame(self) -> Seq<T> {
        interleaved(self.left@, self.right@)
    }
}

impl<T: Copy> StereoChunk<T> {
    /// A chunk in which every sample is `value`.
    pub fn filled(value: T) -> (chunk: Self)
        ensures
            forall|i: int| 0 <= i < CHUNK ==> chunk.left@[i] == value,
            forall|i: int| 0 <= i < CHUNK ==> chunk.right@[i] == value,
    {
        StereoChunk { left: [value; CHUNK], right: [value; CHUNK] }
    }

    /// Takes a chunk out of the first samples of an interleaved frame.
    pub fn from_frame(frame: &[T]) -> (chunk: Self)
        requires
            frame@.len() >= FRAME_SIZE,
        ensures
            chunk.left@ == channel(frame@.take(FRAME_SIZE as int), 2, 0),
            chunk.right@ == channel(frame@.take(FRAME_SIZE as int), 2, 1),
            chunk.frame() == frame@.take(FRAME_SIZE as int),
    {
        let mut left = [frame[0]; CHUNK];
        let mut right = [frame[0]; CHUNK];
        let mut i: usize = 0;
        while i < CHUNK
            invariant
                i <= CHUNK,
                frame@.len() >= FRAME_SIZE,
                forall|j: int| 0 <= j < i ==> left@[j] == frame@[2 * j],
                forall|j: int| 0 <= j < i ==> right@[j] == frame@[2 * j + 1],
            decreases CHUNK - i,
        {
            left[i] = frame[i * 2];
            right[i] = frame[i * 2 + 1];
            i += 1;
        }
        let chunk = StereoChunk { left, right };
        proof {
            let head = frame@.take(FRAME_SIZE as int);
            assert(chunk.left@ =~= channel(head, 2, 0));
            assert(chunk.right@ =~= channel(head, 2, 1));
            assert forall|k: int| 0 <= k < FRAME_SIZE implies chunk.frame()[k] == head[k] by {
                assert(k == 2 * (k / 2) + k % 2);
            }
            assert(chunk.frame() =~= head);
        }
        chunk
    }
}

/// Interleaving two channels and taking them apart again gives the channels back.
pub proof fn lemma_interleave_then_split<T>(left: Seq<T>, right: Seq<T>)
    requires
        left.len() == right.len(),
    ensures
        channel(interleaved(left, right), 2, 0) == left,
        channel(interleaved(left, right), 2, 1) == right,
{
    let frame = interleaved(left, right);
    assert(channel(frame, 2, 0) =~= left);
    assert(channel(frame, 2, 1) =~= right);
}

/// Taking an interleaved frame apart and interleaving its channels gives the frame back.
pub proof fn lemma_split_then_interleave<T>(frame: Seq<T>)
    requires
        frame.len() % 2 == 0,
    ensures
        interleaved(channel(frame, 2, 0), channel(frame, 2, 1)) == frame,
{
    assert(interleaved(channel(frame, 2, 0), channel(frame, 2, 1)) =~= frame);
}

/// Where a sample stands in an interleaved frame: the left one of pair `i` at twice `i`, the right one next
/// to it.
pub proof fn lemma_left_before_right<T>(left: Seq<T>, right: Seq<T>, i: int)
    requires
        left.len() == right.len(),
        0 <= i < left.len(),
    ensures
        interleaved(left, right).len() == left.len() + right.len(),
        interleaved(left, right)[2 * i] == left[i],
        interleaved(left, right)[2 * i + 1] == right[i],
{
}

/// Where a channel has its samples from: the `i`-th group of `channels` samples has its sample at place `c`,
/// and there are as many as there are complete groups.
pub proof fn lemma_channel_takes_one_of_each_group<T>(frame: Seq<T>, channels: nat, c: nat, i: int)
    requires
        0 < channels,
        c < channels,
        0 <= i,
    ensures
        i < channel(frame, channels, c).len() <==> (i + 1) * channels <= frame.len(),
        (i + 1) * channels <= frame.len() ==> channel(frame, channels, c)[i] == frame[i * channels + c],
{
    let (n, k) = (frame.len() as int, channels as int);
    let q = n / k;
    vstd::arithmetic::div_mod::lemma_fundamental_div_mod(n, k);
    assert(0 <= n % k < k);
    if i < q {
        assert((i + 1) * k <= k * q) by (nonlinear_arith)
            requires
                i + 1 <= q,
                k > 0,
        ;
    } else {
        assert((i + 1) * k >= k * q + k) by (nonlinear_arith)
            requires
                i >= q,
                k > 0,
        ;
    }
}

} // verus!
