//! The denoiser: a network, what it is built from, and how audio is laid before it.
//!
//! The network takes one row of [`CHUNK`] samples per channel and gives as many back; `run` is one call
//! of it, and carries its state along. `build` makes a network from its parameters.
use vstd::prelude::*;

use crate::chunk::{StereoChunk, CHUNK};
use crate::model::Model;

verus! {

/// `count` rows of [`CHUNK`] samples.
pub open spec fn rows_of_chunks<T>(rows: Vec<Vec<T>>, count: nat) -> bool {
    &&& rows@.len() == count
    &&& forall|c: int| 0 <= c < count ==> (#[trigger] rows@[c])@.len() == CHUNK
}

/// The samples of a channel as a row.
fn row_of<T: Copy>(channel: &[T; CHUNK]) -> (row: Vec<T>)
    ensures
        row@ == channel@,
{
    let mut row: Vec<T> = Vec::with_capacity(CHUNK);
    let mut i: usize = 0;
    while i < CHUNK
        invariant
            i <= CHUNK,
            row@ == channel@.take(i as int),
        decreases CHUNK - i,
    {
        row.push(channel[i]);
        i += 1;
        assert(row@ =~= channel@.take(i as int));
    }
    assert(row@ =~= channel@);
    row
}

/// Fills a channel from a row.
fn fill_channel<T: Copy>(channel: &mut [T; CHUNK], row: &Vec<T>)
    requires
        row@.len() == CHUNK,
    ensures
        final(channel)@ == row@,
{
    let mut i: usize = 0;
    while i < CHUNK
        invariant
            i <= CHUNK,
            row@.len() == CHUNK,
            forall|j: int| 0 <= j < i ==> channel@[j] == row@[j],
        decreases CHUNK - i,
    {
        channel[i] = row[i];
        i += 1;
    }
    assert(channel@ =~= row@);
}

/// `rows` are the channels of a chunk, the left one first.
pub open spec fn stereo_rows<T>(chunk: StereoChunk<T>, rows: Vec<Vec<T>>) -> bool {
    &&& rows@.len() == 2
    &&& rows@[0]@ == chunk.left@
    &&& rows@[1]@ == chunk.right@
}

/// A network for a number of channels, with the parameters that it was built from.
pub struct Denoiser<N, P> {
    pub network: N,
    pub params: P,
    pub channels: usize,
}

impl<N, P> Denoiser<N, P> {
    /// A denoiser for a model: `load` reads the model's parameters.
    pub fn new<E, L: FnOnce(&Model) -> Result<P, E>, B: Fn(&P, usize) -> Result<N, E>>(
        model: &Model,
        channels: usize,
        load: L,
        build: &B,
    ) -> (denoiser: Result<Self, E>)
        requires
            load.requires((model,)),
            forall|params: &P| #[trigger] build.requires((params, channels)),
        ensures
            match denoiser {
                Ok(d) => {
                    &&& load.ensures((model,), Ok(d.params))
                    &&& d.channels == channels
                    &&& freshly_built(*build, d)
                },
                Err(error) => load.ensures((model,), Err(error)) || exists|params: P| #[trigger]
                    load.ensures((model,), Ok(params)) && build.ensures(
                        (&params, channels),
                        Err(error),
                    ),
            },
    {
        match load(model) {
            Ok(params) => match build(&params, channels) {
                Ok(network) => Ok(Denoiser { network, params, channels }),
                Err(error) => Err(error),
            },
            Err(error) => Err(error),
        }
    }

    /// Drops all internal state of the network by building it anew. Where that fails, the denoiser stays
    /// as it was.
    ///
    /// To build a network takes about a second, so this is not for a real-time audio path.
    pub fn reset<E, B: Fn(&P, usize) -> Result<N, E>>(&mut self, build: &B) -> (done: Result<(), E>)
        requires
            build.requires((&old(self).params, old(self).channels)),
        ensures
            final(self).params == old(self).params,
            final(self).channels == old(self).channels,
            match done {
                Ok(_) => freshly_built(*build, *final(self)),
                Err(error) => {
                    &&& *final(self) == *old(self)
                    &&& build.ensures((&old(self).params, old(self).channels), Err(error))
                },
            },
    {
        match build(&self.params, self.channels) {
            Ok(network) => {
                self.network = network;
                Ok(())
            },
            Err(error) => Err(error),
        }
    }

    /// Denoises a chunk: the left channel is the first row, the right channel the second. Returns the
    /// denoiser with the state that its network is in then.
    pub fn process_stereo<
        T: Copy,
        E,
        F: FnOnce(N, &Vec<Vec<T>>) -> (N, Result<Vec<Vec<T>>, E>),
    >(self, input: &StereoChunk<T>, run: F) -> (out: (Self, Result<StereoChunk<T>, E>))
        requires
            forall|rows: &Vec<Vec<T>>| #[trigger] run.requires((self.network, rows)),
            forall|rows: &Vec<Vec<T>>, n: N, found: Vec<Vec<T>>| #[trigger]
                run.ensures((self.network, rows), (n, Ok(found))) ==> rows_of_chunks(found, 2),
        ensures
            out.0.params == self.params,
            out.0.channels == self.channels,
            exists|rows: Vec<Vec<T>>|
                stereo_rows(*input, rows) && #[trigger] stereo_answer(
                    run,
                    self.network,
                    out.0.network,
                    rows,
                    out.1,
                ),
    {
        let mut rows: Vec<Vec<T>> = Vec::new();
        rows.push(row_of(&input.left));
        rows.push(row_of(&input.right));
        let (network, answer) = run(self.network, &rows);
        let output: Result<StereoChunk<T>, E> = match answer {
            Ok(found) => {
                assert(run.ensures((self.network, &rows), (network, Ok(found))));
                let mut left: [T; CHUNK] = input.left;
                let mut right: [T; CHUNK] = input.right;
                fill_channel(&mut left, &found[0]);
                fill_channel(&mut right, &found[1]);
                let chunk = StereoChunk { left, right };
                assert(stereo_rows(chunk, found));
                Ok(chunk)
            },
            Err(error) => Err(error),
        };
        let out = (Denoiser { network, params: self.params, channels: self.channels }, output);
        assert(stereo_answer(run, self.network, out.0.network, rows, out.1));
        out
    }

    /// Denoises a single channel into `output`, and returns how many samples there are. Where the network
    /// fails, `output` is as it was.
    pub fn process_mono<
        T: Copy,
        E,
        F: FnOnce(N, &Vec<Vec<T>>) -> (N, Result<Vec<Vec<T>>, E>),
    >(self, input: &[T; CHUNK], output: &mut [T; CHUNK], run: F) -> (out: (Self, Result<usize, E>))
        requires
            forall|rows: &Vec<Vec<T>>| #[trigger] run.requires((self.network, rows)),
            forall|rows: &Vec<Vec<T>>, n: N, found: Vec<Vec<T>>| #[trigger]
                run.ensures((self.network, rows), (n, Ok(found))) ==> rows_of_chunks(found, 1),
        ensures
            out.0.params == self.params,
            out.0.channels == self.channels,
            exists|rows: Vec<Vec<T>>|
                rows@.len() == 1 && rows@[0]@ == input@ && #[trigger] mono_answer(
                    run,
                    self.network,
                    out.0.network,
                    rows,
                    old(output)@,
                    final(output)@,
                    out.1,
                ),
    {
        let mut rows: Vec<Vec<T>> = Vec::new();
        rows.push(row_of(input));
        let (network, answer) = run(self.network, &rows);
        let produced: Result<usize, E> = match answer {
            Ok(found) => {
                assert(run.ensures((self.network, &rows), (network, Ok(found))));
                fill_channel(output, &found[0]);
                Ok(CHUNK)
            },
            Err(error) => Err(error),
        };
        let out = (Denoiser { network, params: self.params, channels: self.channels }, produced);
        assert(mono_answer(run, self.network, out.0.network, rows, old(output)@, output@, out.1));
        out
    }
}

/// The network of a denoiser is one that `build` makes of its parameters.
pub open spec fn freshly_built<N, P, E, B: Fn(&P, usize) -> Result<N, E>>(
    build: B,
    denoiser: Denoiser<N, P>,
) -> bool {
    build.ensures((&denoiser.params, denoiser.channels), Ok(denoiser.network))
}

/// A denoiser that was reset is as one freshly built: where `build` makes one network of the same
/// parameters, it equals any fresh denoiser with those parameters and as many channels, whatever it has
/// processed and however often it was reset before.
pub proof fn lemma_reset_is_fresh<N, P, E, B: Fn(&P, usize) -> Result<N, E>>(
    build: B,
    after_reset: Denoiser<N, P>,
    fresh: Denoiser<N, P>,
)
    requires
        forall|params: &P, channels: usize, a: N, b: N| #[trigger]
            build.ensures((params, channels), Ok(a)) && #[trigger] build.ensures(
                (params, channels),
                Ok(b),
            ) ==> a == b,
        freshly_built(build, after_reset),
        freshly_built(build, fresh),
        after_reset.params == fresh.params,
        after_reset.channels == fresh.channels,
    ensures
        after_reset == fresh,
{
}

/// Rows that hold the same samples.
pub open spec fn same_rows<T>(a: Vec<Vec<T>>, b: Vec<Vec<T>>) -> bool {
    &&& a@.len() == b@.len()
    &&& forall|c: int| 0 <= c < a@.len() ==> (#[trigger] a@[c])@ == b@[c]@
}

/// A network in one state makes one thing of the same samples: it goes on to one state, and the rows that
/// it gives hold the same samples.
pub open spec fn repeatable<N, T, E, F: FnOnce(N, &Vec<Vec<T>>) -> (N, Result<Vec<Vec<T>>, E>)>(
    run: F,
) -> bool {
    forall|n: N, a: Vec<Vec<T>>, b: Vec<Vec<T>>, na: N, nb: N, ra: Vec<Vec<T>>, rb: Vec<Vec<T>>|
        same_rows(a, b) && #[trigger] run.ensures((n, &a), (na, Ok(ra))) && #[trigger] run.ensures(
            (n, &b),
            (nb, Ok(rb)),
        ) ==> na == nb && same_rows(ra, rb)
}

/// A denoiser goes through `states` on `frames`, one after the other, and gives `outs`: what
/// [`Denoiser::process_stereo`] does frame by frame where `run` succeeds on each.
pub open spec fn denoises<
    N,
    P,
    T,
    E,
    F: FnOnce(N, &Vec<Vec<T>>) -> (N, Result<Vec<Vec<T>>, E>),
>(
    run: F,
    states: Seq<Denoiser<N, P>>,
    frames: Seq<StereoChunk<T>>,
    outs: Seq<StereoChunk<T>>,
) -> bool {
    &&& states.len() == frames.len() + 1
    &&& outs.len() == frames.len()
    &&& forall|k: int|
        0 <= k < frames.len() ==> frame_denoised(
            run,
            states[k],
            states[k + 1],
            frames[k],
            #[trigger] outs[k],
        )
}

/// A denoiser goes from `from` to `to` and makes `output` of `input`.
pub open spec fn frame_denoised<
    N,
    P,
    T,
    E,
    F: FnOnce(N, &Vec<Vec<T>>) -> (N, Result<Vec<Vec<T>>, E>),
>(
    run: F,
    from: Denoiser<N, P>,
    to: Denoiser<N, P>,
    input: StereoChunk<T>,
    output: StereoChunk<T>,
) -> bool {
    &&& to.params == from.params
    &&& to.channels == from.channels
    &&& exists|rows: Vec<Vec<T>>|
        stereo_rows(input, rows) && #[trigger] stereo_answer(
            run,
            from.network,
            to.network,
            rows,
            Ok(output),
        )
}

/// Two denoisers in the same state make the same of a frame.
proof fn lemma_same_frame<N, P, T, E, F: FnOnce(N, &Vec<Vec<T>>) -> (N, Result<Vec<Vec<T>>, E>)>(
    run: F,
    from: Denoiser<N, P>,
    to_a: Denoiser<N, P>,
    to_b: Denoiser<N, P>,
    input: StereoChunk<T>,
    a: StereoChunk<T>,
    b: StereoChunk<T>,
)
    requires
        repeatable(run),
        frame_denoised(run, from, to_a, input, a),
        frame_denoised(run, from, to_b, input, b),
    ensures
        to_a == to_b,
        a.left@ == b.left@,
        a.right@ == b.right@,
{
    let rows_a = choose|rows: Vec<Vec<T>>|
        stereo_rows(input, rows) && #[trigger] stereo_answer(
            run,
            from.network,
            to_a.network,
            rows,
            Ok(a),
        );
    let rows_b = choose|rows: Vec<Vec<T>>|
        stereo_rows(input, rows) && #[trigger] stereo_answer(
            run,
            from.network,
            to_b.network,
            rows,
            Ok(b),
        );
    let found_a = choose|found: Vec<Vec<T>>| #[trigger]
        run.ensures((from.network, &rows_a), (to_a.network, Ok(found))) && stereo_rows(a, found);
    let found_b = choose|found: Vec<Vec<T>>| #[trigger]
        run.ensures((from.network, &rows_b), (to_b.network, Ok(found))) && stereo_rows(b, found);
    assert(same_rows(rows_a, rows_b));
    assert(same_rows(found_a, found_b));
    assert(found_a@[0]@ == found_b@[0]@);
    assert(found_a@[1]@ == found_b@[1]@);
}

/// A denoiser that was reset gives sample for sample what a fresh one gives, on every list of frames,
/// whatever it has processed before and however often it was reset: where `build` makes one network of the
/// same parameters, and the network makes one thing of the same samples.
pub proof fn lemma_reset_denoises_as_fresh<
    N,
    P,
    T,
    E,
    B: Fn(&P, usize) -> Result<N, E>,
    F: FnOnce(N, &Vec<Vec<T>>) -> (N, Result<Vec<Vec<T>>, E>),
>(
    build: B,
    run: F,
    after_reset: Seq<Denoiser<N, P>>,
    fresh: Seq<Denoiser<N, P>>,
    frames: Seq<StereoChunk<T>>,
    outs: Seq<StereoChunk<T>>,
    expected: Seq<StereoChunk<T>>,
    k: int,
)
    requires
        forall|params: &P, channels: usize, a: N, b: N| #[trigger]
            build.ensures((params, channels), Ok(a)) && #[trigger] build.ensures(
                (params, channels),
                Ok(b),
            ) ==> a == b,
        repeatable(run),
        denoises(run, after_reset, frames, outs),
        denoises(run, fresh, frames, expected),
        freshly_built(build, after_reset[0]),
        freshly_built(build, fresh[0]),
        after_reset[0].params == fresh[0].params,
        after_reset[0].channels == fresh[0].channels,
        0 <= k <= frames.len(),
    ensures
        after_reset[k] == fresh[k],
        forall|j: int|
            0 <= j < k ==> (#[trigger] outs[j]).left@ == expected[j].left@ && outs[j].right@
                == expected[j].right@,
    decreases k,
{
    if k == 0 {
        lemma_reset_is_fresh(build, after_reset[0], fresh[0]);
    } else {
        lemma_reset_denoises_as_fresh(
            build,
            run,
            after_reset,
            fresh,
            frames,
            outs,
            expected,
            k - 1,
        );
        assert(frame_denoised(
            run,
            after_reset[k - 1],
            after_reset[k],
            frames[k - 1],
            outs[k - 1],
        ));
        assert(frame_denoised(run, fresh[k - 1], fresh[k], frames[k - 1], expected[k - 1]));
        lemma_same_frame(
            run,
            fresh[k - 1],
            after_reset[k],
            fresh[k],
            frames[k - 1],
            outs[k - 1],
            expected[k - 1],
        );
    }
}

/// `output` is what `run`, with the network going from `from` to `to`, has answered to `rows`.
pub open spec fn stereo_answer<
    N,
    T,
    E,
    F: FnOnce(N, &Vec<Vec<T>>) -> (N, Result<Vec<Vec<T>>, E>),
>(run: F, from: N, to: N, rows: Vec<Vec<T>>, output: Result<StereoChunk<T>, E>) -> bool {
    match output {
        Ok(chunk) => exists|found: Vec<Vec<T>>| #[trigger]
            run.ensures((from, &rows), (to, Ok(found))) && stereo_rows(chunk, found),
        Err(error) => run.ensures((from, &rows), (to, Err(error))),
    }
}

/// `after` and `produced` are what `run`, with the network going from `from` to `to`, has answered to
/// `rows`.
pub open spec fn mono_answer<N, T, E, F: FnOnce(N, &Vec<Vec<T>>) -> (N, Result<Vec<Vec<T>>, E>)>(
    run: F,
    from: N,
    to: N,
    rows: Vec<Vec<T>>,
    before: Seq<T>,
    after: Seq<T>,
    produced: Result<usize, E>,
) -> bool {
    match produced {
        Ok(n) => n == CHUNK && exists|found: Vec<Vec<T>>| #[trigger]
            run.ensures((from, &rows), (to, Ok(found))) && after == found@[0]@,
        Err(error) => run.ensures((from, &rows), (to, Err(error))) && after == before,
    }
}

/// Which row stands for which channel: the first for the left one and the second for the right one, sample by
/// sample, and there is no other row.
pub proof fn lemma_first_row_is_left<T>(chunk: StereoChunk<T>, rows: Vec<Vec<T>>)
    requires
        stereo_rows(chunk, rows),
    ensures
        rows@.len() == 2,
        rows@[0]@.len() == 480,
        rows@[1]@.len() == 480,
        forall|i: int| 0 <= i < 480 ==> chunk.left@[i] == #[trigger] rows@[0]@[i],
        forall|i: int| 0 <= i < 480 ==> chunk.right@[i] == #[trigger] rows@[1]@[i],
{
}

/// What a network gives for one channel replaces it, and nothing does where the network fails.
pub proof fn lemma_failed_channel_is_untouched<
    N,
    T,
    E,
    F: FnOnce(N, &Vec<Vec<T>>) -> (N, Result<Vec<Vec<T>>, E>),
>(
    run: F,
    from: N,
    to: N,
    rows: Vec<Vec<T>>,
    before: Seq<T>,
    after: Seq<T>,
    produced: Result<usize, E>,
)
    requires
        mono_answer(run, from, to, rows, before, after, produced),
    ensures
        produced is Err ==> after == before,
        produced matches Ok(n) ==> n == 480 && exists|found: Vec<Vec<T>>| #[trigger]
            run.ensures((from, &rows), (to, Ok(found))) && after == found@[0]@,
        produced matches Err(error) ==> run.ensures((from, &rows), (to, Err(error))),
{
}

/// What a network gives for two channels goes to the channels that it was given: its first row to the left,
/// its second to the right.
pub proof fn lemma_channels_keep_their_sides<
    N,
    P,
    T,
    E,
    F: FnOnce(N, &Vec<Vec<T>>) -> (N, Result<Vec<Vec<T>>, E>),
>(
    run: F,
    from: Denoiser<N, P>,
    to: Denoiser<N, P>,
    input: StereoChunk<T>,
    output: StereoChunk<T>,
)
    requires
        frame_denoised(run, from, to, input, output),
    ensures
        to.params == from.params,
        to.channels == from.channels,
        exists|rows: Vec<Vec<T>>, found: Vec<Vec<T>>|
            {
                &&& #[trigger] run.ensures((from.network, &rows), (to.network, Ok(found)))
                &&& rows@.len() == 2 && found@.len() == 2
                &&& rows@[0]@ == input.left@ && rows@[1]@ == input.right@
                &&& output.left@ == found@[0]@ && output.right@ == found@[1]@
            },
{
}

} // verus!
