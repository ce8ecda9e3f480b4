//! One processing chain: input buffer, denoiser, output buffer.
use vstd::prelude::*;
use std::ops::Add;

use crate::buffer::{excess_samples, lemma_latency_bound, AudioBuf, MAX_BUFFER_FRAMES};
use crate::chunk::{StereoChunk, CHUNK, FRAME_SIZE};
use crate::dsp::{adds, sum_gives};
use crate::meter::{counted, RmsMeter};

verus! {

/// Buffers of one chain, and whether its capture stream is open.
pub struct Chain<T> {
    pub input: AudioBuf<T>,
    pub output: AudioBuf<T>,
    pub active: bool,
}

impl<T> Chain<T> {
    /// Both buffers are valid.
    pub open spec fn wf(&self) -> bool {
        &&& self.input.wf()
        &&& self.output.wf()
    }

    /// A chain whose capture is closed holds no samples.
    pub open spec fn quiet_when_closed(&self) -> bool {
        !self.active ==> self.input@.len() == 0 && self.output@.len() == 0
    }

    /// A closed chain.
    pub fn new() -> (chain: Self)
        ensures
            chain.wf(),
            !chain.active,
            chain.input@ == Seq::<T>::empty(),
            chain.output@ == Seq::<T>::empty(),
    {
        Chain { input: AudioBuf::new(), output: AudioBuf::new(), active: false }
    }

    /// Marks the capture as open and forgets input from before.
    pub fn open(&mut self)
        requires
            old(self).wf(),
        ensures
            final(self).wf(),
            final(self).active,
            final(self).input@ == Seq::<T>::empty(),
            final(self).output@ == old(self).output@,
    {
        self.input.clear();
        self.active = true;
    }

    /// Marks the capture as closed and forgets every sample.
    pub fn close(&mut self)
        ensures
            final(self).wf(),
            !final(self).active,
            final(self).input@ == Seq::<T>::empty(),
            final(self).output@ == Seq::<T>::empty(),
    {
        self.input.clear();
        self.output.clear();
        self.active = false;
    }
}

/// What became of one attempt to process a frame.
pub enum FrameOutcome<T, E> {
    /// Too few samples were waiting.
    Starved,
    /// The frame was passed on untouched.
    Bypassed { input: StereoChunk<T> },
    /// The frame was replaced by the denoiser's.
    Denoised { input: StereoChunk<T>, output: StereoChunk<T> },
    /// The denoiser failed and the frame was passed on untouched.
    Failed { input: StereoChunk<T>, error: E },
}

impl<T, E> FrameOutcome<T, E> {
    /// The samples that the output buffer gains.
    pub open spec fn appended(self) -> Seq<T> {
        match self {
            FrameOutcome::Starved => Seq::empty(),
            FrameOutcome::Bypassed { input } => input.frame(),
            FrameOutcome::Denoised { input: _, output } => output.frame(),
            FrameOutcome::Failed { input, error: _ } => input.frame(),
        }
    }

    /// The frame that was taken from the input buffer, if any.
    pub open spec fn taken(self) -> Option<StereoChunk<T>> {
        match self {
            FrameOutcome::Starved => None,
            FrameOutcome::Bypassed { input } => Some(input),
            FrameOutcome::Denoised { input, output: _ } => Some(input),
            FrameOutcome::Failed { input, error: _ } => Some(input),
        }
    }
}

/// Whether `level` is the level of a chunk: the sum over its channels of what `rms` makes of them.
pub open spec fn level_of<T, L: Add<Output = L>, R: Fn(&[T; CHUNK]) -> L>(
    chunk: StereoChunk<T>,
    rms: R,
    level: L,
) -> bool {
    exists|left: L, right: L|
        {
            &&& #[trigger] rms.ensures((&chunk.left,), left)
            &&& #[trigger] rms.ensures((&chunk.right,), right)
            &&& sum_gives(left, right, level)
        }
}

/// How a meter counts what became of a frame: a frame that was passed on untouched has the same level on
/// both sides, whatever the reason.
pub open spec fn metered<T, L: Add<Output = L>, E, R: Fn(&[T; CHUNK]) -> L>(
    before: RmsMeter<L>,
    after: RmsMeter<L>,
    outcome: FrameOutcome<T, E>,
    rms: R,
) -> bool {
    match outcome {
        FrameOutcome::Starved => after == before,
        FrameOutcome::Bypassed { input } => exists|l: L| #[trigger]
            level_of(input, rms, l) && counted(before, after, l, l),
        FrameOutcome::Failed { input, error: _ } => exists|l: L| #[trigger]
            level_of(input, rms, l) && counted(before, after, l, l),
        FrameOutcome::Denoised { input, output } => exists|l: L, m: L| #[trigger]
            level_of(input, rms, l) && #[trigger] level_of(output, rms, m) && counted(
                before,
                after,
                l,
                m,
            ),
    }
}

/// The level of a chunk.
pub fn chunk_level<T, L: Copy + Add<Output = L>, R: Fn(&[T; CHUNK]) -> L>(
    chunk: &StereoChunk<T>,
    rms: &R,
) -> (level: L)
    requires
        adds::<L>(),
        forall|channel: &[T; CHUNK]| #[trigger] rms.requires((channel,)),
    ensures
        level_of(*chunk, *rms, level),
{
    let left = rms(&chunk.left);
    let right = rms(&chunk.right);
    assert(call_requires(<L as Add>::add, (left, right)));
    let level = left + right;
    assert(sum_gives(left, right, level));
    level
}

/// Counts what became of a frame.
pub fn count_outcome<T, L: Copy + Add<Output = L>, E, R: Fn(&[T; CHUNK]) -> L>(
    outcome: &FrameOutcome<T, E>,
    rms: &R,
    meter: &mut RmsMeter<L>,
)
    requires
        adds::<L>(),
        forall|channel: &[T; CHUNK]| #[trigger] rms.requires((channel,)),
        old(meter).count <= u32::MAX - 2,
    ensures
        metered(*old(meter), *final(meter), *outcome, *rms),
{
    match outcome {
        FrameOutcome::Starved => {},
        FrameOutcome::Bypassed { input } => {
            let level = chunk_level(input, rms);
            meter.push(level, level);
        },
        FrameOutcome::Failed { input, error: _ } => {
            let level = chunk_level(input, rms);
            meter.push(level, level);
        },
        FrameOutcome::Denoised { input, output } => {
            let level = chunk_level(input, rms);
            let denoised = chunk_level(output, rms);
            meter.push(level, denoised);
        },
    }
}

/// Whether a denoiser may be asked about the next frame of `waiting`. Nothing is said of any other frame,
/// nor where there is none, nor where the chain is bypassed: a denoiser is then left alone.
pub open spec fn may_ask<T, E, F: FnOnce(&StereoChunk<T>) -> Result<StereoChunk<T>, E>>(
    denoise: F,
    waiting: Seq<T>,
    is_bypass: bool,
    frame_size: nat,
) -> bool {
    !is_bypass && waiting.len() >= frame_size ==> forall|chunk: &StereoChunk<T>|
        chunk.frame() == waiting.take(FRAME_SIZE as int) ==> #[trigger] denoise.requires((chunk,))
}

/// What became of a frame is what the denoiser said of it, unless it was not asked.
pub open spec fn answered<T, E, F: FnOnce(&StereoChunk<T>) -> Result<StereoChunk<T>, E>>(
    denoise: F,
    outcome: FrameOutcome<T, E>,
) -> bool {
    &&& outcome matches FrameOutcome::Denoised { input, output } ==> denoise.ensures(
        (&input,),
        Ok(output),
    )
    &&& outcome matches FrameOutcome::Failed { input, error } ==> denoise.ensures(
        (&input,),
        Err(error),
    )
}

/// Moves one frame through the chain. The first [`FRAME_SIZE`] samples of a frame of `frame_size`
/// samples are processed; the denoiser is asked once, and only when the chain is not bypassed, and a
/// denoiser that fails leaves the frame as it was. The meter counts the frame.
pub fn process_chain<
    T: Copy,
    L: Copy + Add<Output = L>,
    E,
    F: FnOnce(&StereoChunk<T>) -> Result<StereoChunk<T>, E>,
    R: Fn(&[T; CHUNK]) -> L,
>(
    audio_in: &mut AudioBuf<T>,
    audio_out: &mut AudioBuf<T>,
    denoise: F,
    is_bypass: bool,
    frame_size: usize,
    rms: &R,
    meter: &mut RmsMeter<L>,
) -> (outcome: FrameOutcome<T, E>)
    requires
        old(audio_in).wf(),
        old(audio_out).wf(),
        frame_size >= FRAME_SIZE || old(audio_in)@.len() < frame_size,
        may_ask(denoise, old(audio_in)@, is_bypass, frame_size as nat),
        adds::<L>(),
        forall|channel: &[T; CHUNK]| #[trigger] rms.requires((channel,)),
        old(meter).count <= u32::MAX - 2,
    ensures
        final(audio_in).wf(),
        final(audio_out).wf(),
        outcome is Starved <==> old(audio_in)@.len() < frame_size,
        outcome is Starved ==> final(audio_in)@ == old(audio_in)@,
        outcome !is Starved ==> final(audio_in)@ == old(audio_in)@.skip(frame_size as int),
        outcome.taken() matches Some(input) ==> input.frame() == old(audio_in)@.take(
            FRAME_SIZE as int,
        ),
        outcome is Bypassed <==> is_bypass && outcome !is Starved,
        answered(denoise, outcome),
        final(audio_out)@ == old(audio_out)@ + outcome.appended(),
        metered(*old(meter), *final(meter), outcome, *rms),
{
    let outcome = move_frame(audio_in, audio_out, denoise, is_bypass, frame_size);
    count_outcome(&outcome, rms, meter);
    outcome
}

/// Moves one frame from `audio_in` to `audio_out`.
fn move_frame<T: Copy, E, F: FnOnce(&StereoChunk<T>) -> Result<StereoChunk<T>, E>>(
    audio_in: &mut AudioBuf<T>,
    audio_out: &mut AudioBuf<T>,
    denoise: F,
    is_bypass: bool,
    frame_size: usize,
) -> (outcome: FrameOutcome<T, E>)
    requires
        old(audio_in).wf(),
        old(audio_out).wf(),
        frame_size >= FRAME_SIZE || old(audio_in)@.len() < frame_size,
        may_ask(denoise, old(audio_in)@, is_bypass, frame_size as nat),
    ensures
        final(audio_in).wf(),
        final(audio_out).wf(),
        outcome is Starved <==> old(audio_in)@.len() < frame_size,
        outcome is Starved ==> final(audio_in)@ == old(audio_in)@,
        outcome !is Starved ==> final(audio_in)@ == old(audio_in)@.skip(frame_size as int),
        outcome.taken() matches Some(input) ==> input.frame() == old(audio_in)@.take(
            FRAME_SIZE as int,
        ),
        outcome is Bypassed <==> is_bypass && outcome !is Starved,
        answered(denoise, outcome),
        final(audio_out)@ == old(audio_out)@ + outcome.appended(),
{
    let frame = match audio_in.drain_frames(frame_size) {
        Some(frame) => frame,
        None => {
            let outcome: FrameOutcome<T, E> = FrameOutcome::Starved;
            assert(audio_out@ =~= old(audio_out)@ + outcome.appended());
            return outcome;
        },
    };
    let input = StereoChunk::from_frame(&frame);
    assert(frame@.take(FRAME_SIZE as int) =~= old(audio_in)@.take(FRAME_SIZE as int));
    if is_bypass {
        audio_out.push_chunk(&input);
        return FrameOutcome::Bypassed { input };
    }
    match denoise(&input) {
        Ok(output) => {
            audio_out.push_chunk(&output);
            FrameOutcome::Denoised { input, output }
        },
        Err(error) => {
            audio_out.push_chunk(&input);
            FrameOutcome::Failed { input, error }
        },
    }
}

/// What one turn of a chain did.
pub struct ChainTurn<T, E> {
    /// Samples dropped from the input to bound latency.
    pub dropped: usize,
    /// What became of the frame.
    pub outcome: FrameOutcome<T, E>,
}

/// One turn of a chain: the backlog `before` is bounded, then at most one frame is taken, and the
/// outcome says what became of it.
pub open spec fn turned<T, E, F: FnOnce(&StereoChunk<T>) -> Result<StereoChunk<T>, E>>(
    before: Seq<T>,
    after: Seq<T>,
    denoise: F,
    enabled: bool,
    turn: ChainTurn<T, E>,
) -> bool {
    let bounded = before.skip(turn.dropped as int);
    let outcome = turn.outcome;
    &&& turn.dropped == excess_samples(before.len())
    &&& outcome is Starved <==> bounded.len() < FRAME_SIZE
    &&& after == if outcome is Starved {
        bounded
    } else {
        bounded.skip(FRAME_SIZE as int)
    }
    &&& outcome.taken() matches Some(input) ==> input.frame() == bounded.take(FRAME_SIZE as int)
    &&& outcome is Bypassed <==> !enabled && outcome !is Starved
    &&& answered(denoise, outcome)
}

/// What is left of a backlog once it is bounded.
pub open spec fn bounded<T>(waiting: Seq<T>) -> Seq<T> {
    waiting.skip(excess_samples(waiting.len()) as int)
}

/// However much audio has piled up, after one turn of a chain fewer than [`MAX_BUFFER_FRAMES`] frames
/// wait to be processed, and at most one frame was added to what is to be played: the delay is bounded
/// under any load.
pub proof fn lemma_turn_bounds_latency<
    T,
    E,
    F: FnOnce(&StereoChunk<T>) -> Result<StereoChunk<T>, E>,
>(before: Seq<T>, after: Seq<T>, denoise: F, enabled: bool, turn: ChainTurn<T, E>)
    requires
        turned(before, after, denoise, enabled, turn),
    ensures
        after.len() < MAX_BUFFER_FRAMES * FRAME_SIZE,
        turn.outcome.appended().len() <= FRAME_SIZE,
{
    lemma_latency_bound(before.len());
}

impl<T: Copy> Chain<T> {
    /// Appends captured samples; a closed chain takes none.
    pub fn feed(&mut self, samples: &[T])
        requires
            old(self).wf(),
        ensures
            final(self).wf(),
            final(self).active == old(self).active,
            final(self).output == old(self).output,
            final(self).input@ == if old(self).active {
                old(self).input@ + samples@
            } else {
                old(self).input@
            },
            old(self).quiet_when_closed() ==> final(self).quiet_when_closed(),
    {
        if self.active {
            self.input.extend(samples);
        }
    }

    /// One turn of the chain: the backlog is bounded, and at most one frame moves from input to output,
    /// through `denoise` where the chain is `enabled`. The meter counts the frame.
    pub fn turn<
        L: Copy + Add<Output = L>,
        E,
        F: FnOnce(&StereoChunk<T>) -> Result<StereoChunk<T>, E>,
        R: Fn(&[T; CHUNK]) -> L,
    >(&mut self, denoise: F, enabled: bool, rms: &R, meter: &mut RmsMeter<L>) -> (turn: ChainTurn<
        T,
        E,
    >)
        requires
            old(self).wf(),
            may_ask(denoise, bounded(old(self).input@), !enabled, FRAME_SIZE as nat),
            adds::<L>(),
            forall|channel: &[T; CHUNK]| #[trigger] rms.requires((channel,)),
            old(meter).count <= u32::MAX - 2,
        ensures
            final(self).wf(),
            final(self).active == old(self).active,
            turned(old(self).input@, final(self).input@, denoise, enabled, turn),
            final(self).output@ == old(self).output@ + turn.outcome.appended(),
            metered(*old(meter), *final(meter), turn.outcome, *rms),
            old(self).quiet_when_closed() ==> final(self).quiet_when_closed(),
    {
        let dropped: usize = self.input.drop_excess();
        let outcome = process_chain(
            &mut self.input,
            &mut self.output,
            denoise,
            !enabled,
            FRAME_SIZE,
            rms,
            meter,
        );
        ChainTurn { dropped, outcome }
    }
}

/// A frame that goes in comes out: whatever became of it, a frame was added to the output exactly where one
/// was taken from the input, and it is the very frame that was taken unless a denoiser answered.
pub proof fn lemma_frame_in_frame_out<T, E>(outcome: FrameOutcome<T, E>)
    ensures
        outcome.taken() is None ==> outcome.appended().len() == 0,
        outcome.taken() is None <==> outcome is Starved,
        outcome.taken() matches Some(input) ==> {
            &&& outcome.appended().len() == 960
            &&& outcome !is Denoised ==> forall|i: int|
                #![trigger input.left@[i]]
                0 <= i < 480 ==> outcome.appended()[2 * i] == input.left@[i] && outcome.appended()[2 * i + 1]
                    == input.right@[i]
        },
        outcome matches FrameOutcome::Denoised { input, output } ==> outcome.taken() == Some(input)
            && forall|i: int|
            #![trigger output.left@[i]]
            0 <= i < 480 ==> outcome.appended()[2 * i] == output.left@[i] && outcome.appended()[2 * i + 1]
                == output.right@[i],
{
}

/// What a meter makes of a frame, in so many words: two more channels were counted where a frame was taken,
/// both sums grow by the level of both channels, and the two sides grow alike unless a denoiser answered.
pub proof fn lemma_meter_counts_both_channels<T, L: Add<Output = L>, E, R: Fn(&[T; CHUNK]) -> L>(
    value: spec_fn(L) -> int,
    level: spec_fn([T; CHUNK]) -> int,
    before: RmsMeter<L>,
    after: RmsMeter<L>,
    outcome: FrameOutcome<T, E>,
    rms: R,
)
    requires
        forall|x: L, y: L, z: L| #[trigger] sum_gives(x, y, z) ==> value(z) == value(x) + value(y),
        forall|channel: [T; CHUNK], l: L| #[trigger]
            rms.ensures((&channel,), l) ==> value(l) == level(channel),
        metered(before, after, outcome, rms),
    ensures
        outcome is Starved ==> after == before,
        outcome.taken() matches Some(input) ==> {
            &&& after.count == before.count + 2
            &&& value(after.input) == value(before.input) + level(input.left) + level(input.right)
            &&& outcome !is Denoised ==> value(after.output) == value(before.output) + level(input.left)
                + level(input.right)
        },
        outcome matches FrameOutcome::Denoised { input: _, output } ==> value(after.output) == value(
            before.output,
        ) + level(output.left) + level(output.right),
{
}

/// Bounding a backlog keeps its newest samples, in their order: what goes are whole frames at the front, and
/// nothing goes from a backlog of eight frames or less.
pub proof fn lemma_bounding_keeps_the_newest<T>(waiting: Seq<T>)
    ensures
        waiting.len() <= 7680 ==> bounded(waiting) == waiting,
        bounded(waiting).len() <= waiting.len(),
        (waiting.len() - bounded(waiting).len()) % 960 == 0,
        waiting.len() > 7680 ==> 7680 <= bounded(waiting).len() < 8640,
        bounded(waiting) == waiting.skip(waiting.len() - bounded(waiting).len()),
{
    lemma_latency_bound(waiting.len());
}

/// A turn of a chain loses nothing but what it says it drops: what was dropped, the frame that was taken and
/// what goes on waiting make up, in this order, what had been waiting. A chain that is switched off asks
/// nobody, and one that is on passes no frame on unasked.
pub proof fn lemma_turn_accounts_for_all<T, E, F: FnOnce(&StereoChunk<T>) -> Result<StereoChunk<T>, E>>(
    before: Seq<T>,
    after: Seq<T>,
    denoise: F,
    enabled: bool,
    turn: ChainTurn<T, E>,
)
    requires
        turned(before, after, denoise, enabled, turn),
    ensures
        turn.outcome.taken() matches Some(input) ==> before.take(turn.dropped as int) + input.frame() + after
            == before,
        turn.outcome.taken() is None ==> before.take(turn.dropped as int) + after == before && after.len()
            < 960,
        before.len() >= 960 ==> turn.outcome !is Starved,
        !enabled ==> turn.outcome is Starved || turn.outcome is Bypassed,
        enabled ==> turn.outcome !is Bypassed,
        before.len() <= 7680 ==> turn.dropped == 0,
        turn.outcome matches FrameOutcome::Denoised { input, output } ==> denoise.ensures(
            (&input,),
            Ok(output),
        ),
        turn.outcome matches FrameOutcome::Failed { input, error } ==> denoise.ensures(
            (&input,),
            Err(error),
        ),
{
    lemma_latency_bound(before.len());
    let rest = before.skip(turn.dropped as int);
    match turn.outcome.taken() {
        Some(input) => {
            assert(input.frame() == rest.take(960));
            assert(before.take(turn.dropped as int) + input.frame() + after =~= before);
        },
        None => {
            assert(before.take(turn.dropped as int) + after =~= before);
        },
    }
}

/// A chain that is closed holds nothing, on either side.
pub proof fn lemma_closed_chain_is_empty<T>(chain: Chain<T>)
    requires
        chain.quiet_when_closed(),
        !chain.active,
    ensures
        chain.input@ == Seq::<T>::empty(),
        chain.output@ == Seq::<T>::empty(),
{
    assert(chain.input@ =~= Seq::<T>::empty());
    assert(chain.output@ =~= Seq::<T>::empty());
}

} // verus!
