//! A block of audio on its way through the plugin.
use vstd::prelude::*;
use std::collections::VecDeque;
use std::ops::{Add, Mul, Sub};

use crate::config::{DF_BINS, DF_ORDER, FREQ_BINS, HOP_SIZE};
use crate::dsp::{adds, coef_index, multiplies, subtracts, tap_in_range, DF_PAD_BEFORE};
use crate::network::repeated;
use crate::plugin::{
    BATCH_FRAMES, Backend, HISTORY_CAP, MAX_CHANNELS, UpallaPlugin, all_analysed, all_denoised,
    all_empty, all_restored, drained, first_channels, hops_taken, joined, kept_all,
    lemma_most_recent_kept, lemma_read_and_rest_make_the_buffer, open_after, result_fits, without,
};
use crate::queue::{GpuResponse, GpuTask};
use crate::rolling::copy_row;

verus! {

/// What works for the plugin: a transform for each channel in either direction, and the denoiser of
/// the audio thread where there is one.
pub struct Engines<A, D> {
    pub stft_in: Vec<A>,
    pub stft_out: Vec<A>,
    pub cpu: Option<D>,
    /// A worker thread denoises.
    pub has_worker: bool,
    /// A model was found, whether or not it could be loaded.
    pub found: bool,
}

impl<A, D> Engines<A, D> {
    /// How audio is denoised.
    pub open spec fn backend(&self) -> Backend {
        if self.has_worker {
            Backend::Worker
        } else if self.cpu is Some {
            Backend::Cpu
        } else if self.found {
            Backend::Silent
        } else {
            Backend::PassThrough
        }
    }

    /// Nothing is set up yet, or there is a transform for each of `channels` channels.
    pub open spec fn covers(&self, channels: usize) -> bool {
        self.stft_in@.len() == 0 || (self.stft_in@.len() >= channels && self.stft_out@.len()
            >= channels)
    }
}

/// What a block comes to: the output of each channel, unless the plugin is bypassed, and a batch for
/// the worker.
pub struct Processed<T> {
    pub output: Option<Vec<Vec<T>>>,
    pub task: Option<GpuTask<T>>,
}

/// How many channels of a block the plugin handles.
pub open spec fn handled<T>(block: Seq<Vec<T>>) -> usize {
    if block.len() < MAX_CHANNELS {
        block.len() as usize
    } else {
        MAX_CHANNELS
    }
}

/// Whether a block of `channels` channels finds the plugin set up for another number, or not at all.
pub open spec fn unsettled<T, A, D>(
    plugin: UpallaPlugin<T>,
    engines: Engines<A, D>,
    channels: usize,
) -> bool {
    !(channels == plugin.channels && engines.stft_in@.len() > 0)
}

/// From `before` to `after` the plugin has adapted to `channels` channels: where that is a change,
/// everything that waits is dropped.
pub open spec fn adapted<T>(
    before: UpallaPlugin<T>,
    after: UpallaPlugin<T>,
    channels: usize,
    changed: bool,
) -> bool {
    &&& after.wf()
    &&& !changed ==> after == before
    &&& changed ==> {
        &&& after.channels == channels
        &&& all_empty(after.input_buf@, channels as nat)
        &&& all_empty(after.output_buf@, channels as nat)
        &&& after.spec_real_history@.len() == 0
        &&& after.last_sent_frame == 0
        &&& after.same_results(&before)
        &&& after.pending_task == before.pending_task
        &&& after.vad_grace_remaining == before.vad_grace_remaining
    }
}

/// From `before` to `after` the transforms are fresh ones, one for each of `channels` channels, where
/// there was a change.
pub open spec fn renewed<A, D, R: Fn() -> A>(
    before: Engines<A, D>,
    after: Engines<A, D>,
    fresh: R,
    channels: usize,
    changed: bool,
) -> bool {
    &&& after.cpu == before.cpu
    &&& after.has_worker == before.has_worker
    &&& after.found == before.found
    &&& !changed ==> after == before
    &&& changed ==> all_fresh(fresh, after.stft_in@, channels) && all_fresh(
        fresh,
        after.stft_out@,
        channels,
    )
}

/// `transforms` are `n` results of `fresh`.
pub open spec fn all_fresh<A, R: Fn() -> A>(fresh: R, transforms: Seq<A>, n: usize) -> bool {
    &&& transforms.len() == n
    &&& forall|c: int| 0 <= c < n ==> fresh.ensures((), #[trigger] transforms[c])
}

/// `n` results of `fresh`.
fn make_transforms<A, R: Fn() -> A>(fresh: &R, n: usize) -> (transforms: Vec<A>)
    requires
        fresh.requires(()),
    ensures
        all_fresh(*fresh, transforms@, n),
{
    let mut transforms: Vec<A> = Vec::new();
    while transforms.len() < n
        invariant
            fresh.requires(()),
            transforms@.len() <= n,
            forall|c: int| 0 <= c < transforms@.len() ==> fresh.ensures((), #[trigger] transforms@[c]),
        decreases n - transforms@.len(),
    {
        transforms.push(fresh());
    }
    transforms
}

/// From `before` to `after` each channel has gained its row of `block`.
pub open spec fn pushed<T>(
    before: UpallaPlugin<T>,
    after: UpallaPlugin<T>,
    block: Seq<Vec<T>>,
) -> bool {
    &&& after.channels == before.channels
    &&& after.output_buf == before.output_buf
    &&& after.same_spectra(&before)
    &&& after.vad_grace_remaining == before.vad_grace_remaining
    &&& after.input_buf@.len() == before.input_buf@.len()
    &&& forall|c: int|
        0 <= c < before.channels ==> (#[trigger] after.input_buf@[c])@ == before.input_buf@[c]@
            + block[c]@
    &&& forall|c: int|
        before.channels <= c < before.input_buf@.len() ==> #[trigger] after.input_buf@[c]
            == before.input_buf@[c]
}

/// From `before` to `after` the plugin has taken a block in: it is denoised where the audio thread does
/// that, and analysed where a worker does, as far as it fills hops.
pub open spec fn taken_in<
    T,
    A,
    D,
    F: Fn(A, &Vec<T>) -> (A, (Vec<T>, Vec<T>)),
    H: Fn(D, &Vec<T>) -> (D, Vec<T>),
>(
    before: UpallaPlugin<T>,
    after: UpallaPlugin<T>,
    from: Engines<A, D>,
    to: Engines<A, D>,
    block: Seq<Vec<T>>,
    forward: F,
    denoise: H,
    zero: T,
) -> bool {
    &&& after.channels == before.channels
    &&& after.vad_grace_remaining == before.vad_grace_remaining
    &&& after.pending_task == before.pending_task
    &&& after.same_results(&before)
    &&& to.stft_out == from.stft_out
    &&& to.has_worker == from.has_worker
    &&& to.found == from.found
    &&& exists|mid: UpallaPlugin<T>|
        {
            &&& #[trigger] pushed(before, mid, block)
            &&& hops_taken(mid, after, mid.input_buf@[0]@.len() / HOP_SIZE as nat)
            &&& match from.cpu {
                Some(state) => {
                    &&& to.stft_in == from.stft_in
                    &&& after.same_spectra(&before)
                    &&& to.cpu is Some
                    &&& all_denoised(
                        mid,
                        after,
                        denoise,
                        state,
                        to.cpu->Some_0,
                        mid.input_buf@[0]@.len() / HOP_SIZE as nat,
                    )
                },
                None => {
                    &&& to.cpu is None
                    &&& after.output_buf == before.output_buf
                    &&& all_analysed(
                        mid,
                        after,
                        forward,
                        from.stft_in@,
                        to.stft_in@,
                        mid.input_buf@[0]@.len() / HOP_SIZE as nat,
                        zero,
                    )
                },
            }
        }
}

/// The plugin once it has taken note of a result, if there is one.
pub open spec fn noted<T>(plugin: UpallaPlugin<T>, response: Option<GpuResponse<T>>) -> UpallaPlugin<
    T,
> {
    match response {
        Some(r) => UpallaPlugin {
            last_mask: Some(r.erb_mask),
            last_coefs: Some(r.df_coefs),
            last_num_frames: r.processed_frames,
            pending_task: false,
            ..plugin
        },
        None => plugin,
    }
}

/// From `before` to `after` the last result is applied to every channel.
pub open spec fn applied_to_all<
    T: Copy + Add<Output = T> + Mul<Output = T> + Sub<Output = T>,
    A,
    G: Fn(A, &Vec<T>, &Vec<T>) -> (A, Vec<T>),
>(
    before: UpallaPlugin<T>,
    after: UpallaPlugin<T>,
    inverse: G,
    from: Seq<A>,
    to: Seq<A>,
    zero: T,
) -> bool {
    &&& after.channels == before.channels
    &&& after.input_buf == before.input_buf
    &&& after.same_spectra(&before)
    &&& after.vad_grace_remaining == before.vad_grace_remaining
    &&& after.output_buf@.len() == before.output_buf@.len()
    &&& exists|chain: Seq<Seq<A>>, frames: Seq<Seq<Seq<T>>>|
        {
            &&& #[trigger] all_restored(
                before,
                inverse,
                chain,
                frames,
                before.applied(),
                before.channels,
                zero,
            )
            &&& chain[0] == from
            &&& chain[before.applied() as int] == to
            &&& forall|c: int|
                0 <= c < before.channels ==> (#[trigger] after.output_buf@[c])@
                    == before.output_buf@[c]@ + joined(frames, c, before.applied() as int)
            &&& forall|c: int|
                before.channels <= c < before.output_buf@.len() ==> #[trigger] after.output_buf@[c]
                    == before.output_buf@[c]
        }
}

/// `task` is the batch that is due, and from `before` to `after` it counts as sent.
pub open spec fn batch_due<T>(
    before: UpallaPlugin<T>,
    after: UpallaPlugin<T>,
    task: Option<GpuTask<T>>,
    has_worker: bool,
) -> bool {
    &&& task is Some <==> has_worker && !before.pending_task && before.spec_real_history@.len()
        - before.last_sent_frame >= BATCH_FRAMES
    &&& match task {
        Some(t) => {
            &&& t.num_frames == before.spec_real_history@.len() - before.last_sent_frame
            &&& first_channels(
                before.spec_real_history@.skip(before.last_sent_frame as int),
                t.spec_real@,
            )
            &&& first_channels(
                before.spec_imag_history@.skip(before.last_sent_frame as int),
                t.spec_imag@,
            )
            &&& after.pending_task
            &&& after.last_sent_frame == before.spec_real_history@.len()
        },
        None => after.pending_task == before.pending_task && after.last_sent_frame
            == before.last_sent_frame,
    }
}

/// From `before` to `after` the plugin has given a block of `n` samples out: the last result is applied,
/// a batch is sent if one is due, and the output is muted a while after the last voice, as `voice` finds
/// it in the output that waits on the first channel.
pub open spec fn given_out<
    T: Copy + Add<Output = T> + Mul<Output = T> + Sub<Output = T>,
    A,
    D,
    G: Fn(A, &Vec<T>, &Vec<T>) -> (A, Vec<T>),
    V: Fn(&VecDeque<T>) -> bool,
>(
    before: UpallaPlugin<T>,
    after: UpallaPlugin<T>,
    from: Engines<A, D>,
    to: Engines<A, D>,
    response: Option<GpuResponse<T>>,
    n: nat,
    inverse: G,
    voice: V,
    zero: T,
    rows: Seq<Vec<T>>,
    task: Option<GpuTask<T>>,
) -> bool {
    &&& to.stft_in == from.stft_in
    &&& to.cpu == from.cpu
    &&& to.has_worker == from.has_worker
    &&& to.found == from.found
    &&& exists|mid: UpallaPlugin<T>, heard: bool|
        {
            &&& #[trigger] applied_to_all(
                noted(before, response),
                mid,
                inverse,
                from.stft_out@,
                to.stft_out@,
                zero,
            )
            &&& #[trigger] voice.ensures((&mid.output_buf@[0],), heard)
            &&& batch_due(mid, after, task, from.has_worker)
            &&& after.channels == mid.channels
            &&& after.input_buf == mid.input_buf
            &&& after.spec_real_history == mid.spec_real_history
            &&& after.spec_imag_history == mid.spec_imag_history
            &&& after.same_results(&mid)
            &&& after.vad_grace_remaining == open_after(mid.vad_grace_remaining, heard)
            &&& after.output_buf@.len() == mid.output_buf@.len()
            &&& rows.len() == mid.channels
            &&& forall|c: int|
                0 <= c < mid.channels ==> (#[trigger] rows[c])@ == drained(
                    mid.output_buf@[c]@,
                    after.vad_grace_remaining == 0,
                    n,
                    zero,
                )
            &&& forall|c: int|
                0 <= c < mid.channels ==> (#[trigger] after.output_buf@[c])@ == without(
                    mid.output_buf@[c]@,
                    n,
                )
            &&& forall|c: int|
                mid.channels <= c < mid.output_buf@.len() ==> #[trigger] after.output_buf@[c]
                    == mid.output_buf@[c]
        }
}

/// From `before` to `after` a block is processed: the plugin adapts to its channels, takes it in, and
/// gives as many samples out.
pub open spec fn processed<
    T: Copy + Add<Output = T> + Mul<Output = T> + Sub<Output = T>,
    A,
    D,
    R: Fn() -> A,
    F: Fn(A, &Vec<T>) -> (A, (Vec<T>, Vec<T>)),
    G: Fn(A, &Vec<T>, &Vec<T>) -> (A, Vec<T>),
    H: Fn(D, &Vec<T>) -> (D, Vec<T>),
    V: Fn(&VecDeque<T>) -> bool,
>(
    before: UpallaPlugin<T>,
    after: UpallaPlugin<T>,
    from: Engines<A, D>,
    to: Engines<A, D>,
    block: Seq<Vec<T>>,
    response: Option<GpuResponse<T>>,
    fresh: R,
    forward: F,
    inverse: G,
    denoise: H,
    voice: V,
    zero: T,
    out: Processed<T>,
) -> bool {
    let channels = handled(block);
    let changed = unsettled(before, from, channels);
    exists|ready: UpallaPlugin<T>, mid: UpallaPlugin<T>, made: Engines<A, D>, used: Engines<A, D>|
        {
            &&& #[trigger] adapted(before, ready, channels, changed)
            &&& renewed(from, made, fresh, channels, changed)
            &&& #[trigger] taken_in(ready, mid, made, used, block, forward, denoise, zero)
            &&& given_out(
                mid,
                after,
                used,
                to,
                response,
                block[0]@.len(),
                inverse,
                voice,
                zero,
                out.output->Some_0@,
                out.task,
            )
        }
}

/// No channel of a plugin has output that waits, and there is no result.
pub open spec fn mute<T>(plugin: UpallaPlugin<T>) -> bool {
    &&& plugin.last_mask is None
    &&& forall|c: int|
        0 <= c < plugin.output_buf@.len() ==> (#[trigger] plugin.output_buf@[c])@.len() == 0
}

/// A plugin whose model was found and could not be loaded gives silence, block after block: no result
/// comes, so nothing is ever queued.
pub proof fn lemma_nothing_loaded_is_silent<
    T: Copy + Add<Output = T> + Mul<Output = T> + Sub<Output = T>,
    A,
    D,
    R: Fn() -> A,
    F: Fn(A, &Vec<T>) -> (A, (Vec<T>, Vec<T>)),
    G: Fn(A, &Vec<T>, &Vec<T>) -> (A, Vec<T>),
    H: Fn(D, &Vec<T>) -> (D, Vec<T>),
    V: Fn(&VecDeque<T>) -> bool,
>(
    before: UpallaPlugin<T>,
    after: UpallaPlugin<T>,
    from: Engines<A, D>,
    to: Engines<A, D>,
    block: Seq<Vec<T>>,
    fresh: R,
    forward: F,
    inverse: G,
    denoise: H,
    voice: V,
    zero: T,
    out: Processed<T>,
)
    requires
        before.wf(),
        mute(before),
        from.backend() == Backend::Silent,
        processed(
            before,
            after,
            from,
            to,
            block,
            None,
            fresh,
            forward,
            inverse,
            denoise,
            voice,
            zero,
            out,
        ),
    ensures
        mute(after),
        to.backend() == Backend::Silent,
        out.task is None,
        out.output->Some_0@.len() == handled(block),
        forall|c: int|
            0 <= c < handled(block) ==> (#[trigger] out.output->Some_0@[c])@ == repeated(
                zero,
                block[0]@.len(),
            ),
{
    let channels = handled(block);
    let changed = unsettled(before, from, channels);
    let rows = out.output->Some_0@;
    let n = block[0]@.len();
    let (ready, mid, made, used) = choose|
        ready: UpallaPlugin<T>,
        mid: UpallaPlugin<T>,
        made: Engines<A, D>,
        used: Engines<A, D>,
    |
        {
            &&& #[trigger] adapted(before, ready, channels, changed)
            &&& renewed(from, made, fresh, channels, changed)
            &&& #[trigger] taken_in(ready, mid, made, used, block, forward, denoise, zero)
            &&& given_out(
                mid,
                after,
                used,
                to,
                None,
                n,
                inverse,
                voice,
                zero,
                rows,
                out.task,
            )
        };
    assert(mute(mid));
    let (last, heard) = choose|last: UpallaPlugin<T>, heard: bool|
        {
            &&& #[trigger] applied_to_all(
                noted(mid, None),
                last,
                inverse,
                used.stft_out@,
                to.stft_out@,
                zero,
            )
            &&& #[trigger] voice.ensures((&last.output_buf@[0],), heard)
            &&& batch_due(last, after, out.task, used.has_worker)
            &&& after.same_results(&last)
            &&& after.output_buf@.len() == last.output_buf@.len()
            &&& rows.len() == last.channels
            &&& forall|c: int|
                0 <= c < last.channels ==> (#[trigger] rows[c])@ == drained(
                    last.output_buf@[c]@,
                    after.vad_grace_remaining == 0,
                    n,
                    zero,
                )
            &&& forall|c: int|
                0 <= c < last.channels ==> (#[trigger] after.output_buf@[c])@ == without(
                    last.output_buf@[c]@,
                    n,
                )
            &&& forall|c: int|
                last.channels <= c < last.output_buf@.len() ==> #[trigger] after.output_buf@[c]
                    == last.output_buf@[c]
        };
    let (chain, frames) = choose|chain: Seq<Seq<A>>, frames: Seq<Seq<Seq<T>>>|
        {
            &&& #[trigger] all_restored(
                mid,
                inverse,
                chain,
                frames,
                mid.applied(),
                mid.channels,
                zero,
            )
            &&& forall|c: int|
                0 <= c < mid.channels ==> (#[trigger] last.output_buf@[c])@ == mid.output_buf@[c]@
                    + joined(frames, c, mid.applied() as int)
            &&& forall|c: int|
                mid.channels <= c < mid.output_buf@.len() ==> #[trigger] last.output_buf@[c]
                    == mid.output_buf@[c]
        };
    assert forall|c: int| 0 <= c < last.output_buf@.len() implies (
    #[trigger] last.output_buf@[c])@.len() == 0 by {
        assert(mid.output_buf@[c]@.len() == 0);
        if c < mid.channels {
            assert(joined(frames, c, 0).len() == 0);
        }
    }
    assert forall|c: int| 0 <= c < channels implies (#[trigger] rows[c])@ == repeated(zero, n) by {
        assert(rows[c]@ =~= repeated(zero, n));
    }
    assert forall|c: int| 0 <= c < after.output_buf@.len() implies (
    #[trigger] after.output_buf@[c])@.len() == 0 by {
        assert(last.output_buf@[c]@.len() == 0);
    }
}

/// How many spectra are kept once the plugin has taken a block in.
pub open spec fn kept_then<T, A, D>(
    plugin: UpallaPlugin<T>,
    engines: Engines<A, D>,
    block: Seq<Vec<T>>,
) -> nat {
    let changed = unsettled(plugin, engines, handled(block));
    let waiting = if changed {
        0
    } else {
        plugin.input_buf@[0]@.len()
    };
    let kept = if changed {
        0
    } else {
        plugin.spec_real_history@.len()
    };
    let hops = if engines.cpu is Some {
        0
    } else {
        (waiting + block[0]@.len()) / HOP_SIZE as nat
    };
    if kept + hops < HISTORY_CAP {
        kept + hops
    } else {
        HISTORY_CAP as nat
    }
}

/// The result that is last once `response` came fits the spectra that will be kept.
pub open spec fn response_fits<T, A, D>(
    plugin: UpallaPlugin<T>,
    engines: Engines<A, D>,
    block: Seq<Vec<T>>,
    response: Option<GpuResponse<T>>,
) -> bool {
    let then = noted(plugin, response);
    then.last_mask is Some && then.last_coefs is Some ==> result_fits(
        then.last_coefs->Some_0@.len(),
        then.last_num_frames as int,
        kept_then(plugin, engines, block),
    )
}

/// What is kept once a block is taken in is as many spectra as foretold, each with a row for each
/// channel.
proof fn lemma_kept_then<T, A, D>(
    before: UpallaPlugin<T>,
    engines: Engines<A, D>,
    ready: UpallaPlugin<T>,
    pushed_in: UpallaPlugin<T>,
    after: UpallaPlugin<T>,
    block: Seq<Vec<T>>,
)
    requires
        before.wf(),
        block.len() > 0,
        adapted(before, ready, handled(block), unsettled(before, engines, handled(block))),
        pushed(ready, pushed_in, block),
        engines.cpu is Some ==> after.same_spectra(&ready),
        engines.cpu is None ==> exists|reals: Seq<Vec<Vec<T>>>|
            {
                &&& reals.len() == pushed_in.input_buf@[0]@.len() / HOP_SIZE as nat
                &&& after.spec_real_history@ == #[trigger] kept_all(
                    pushed_in.spec_real_history@,
                    reals,
                )
            },
    ensures
        after.spec_real_history@.len() == kept_then(before, engines, block),
{
    assert(pushed_in.input_buf@[0]@ == ready.input_buf@[0]@ + block[0]@);
    if engines.cpu is None {
        let reals = choose|reals: Seq<Vec<Vec<T>>>|
            {
                &&& reals.len() == pushed_in.input_buf@[0]@.len() / HOP_SIZE as nat
                &&& after.spec_real_history@ == #[trigger] kept_all(
                    pushed_in.spec_real_history@,
                    reals,
                )
            };
        lemma_most_recent_kept(pushed_in.spec_real_history@, reals);
    }
}

/// The first `n` rows of a block.
fn first_rows<T: Copy>(block: &Vec<Vec<T>>, n: usize) -> (rows: Vec<Vec<T>>)
    requires
        n <= block@.len(),
    ensures
        rows@.len() == n,
        forall|c: int| 0 <= c < n ==> (#[trigger] rows@[c])@ == block@[c]@,
{
    let mut rows: Vec<Vec<T>> = Vec::new();
    while rows.len() < n
        invariant
            rows@.len() <= n <= block@.len(),
            forall|c: int| 0 <= c < rows@.len() ==> (#[trigger] rows@[c])@ == block@[c]@,
        decreases n - rows@.len(),
    {
        rows.push(copy_row(&block[rows.len()]));
    }
    rows
}

/// Whether a result can be applied to `kept` spectra.
fn fits(coefs: usize, frames: usize, kept: usize) -> (ok: bool)
    requires
        kept <= HISTORY_CAP,
    ensures
        ok == result_fits(coefs as nat, frames as int, kept as nat),
{
    if kept == 0 {
        return true;
    }
    if frames > kept {
        return false;
    }
    let mut t: usize = 0;
    while t < frames
        invariant
            0 < kept <= HISTORY_CAP,
            t <= frames <= kept,
            forall|s: int, n: int|
                0 <= s < t && 0 <= n < DF_ORDER && tap_in_range(s, n, frames as int)
                    ==> #[trigger] coef_index(n, s, DF_BINS - 1, frames as int) + 1 < coefs,
        decreases frames - t,
    {
        let mut n: usize = 0;
        while n < DF_ORDER
            invariant
                0 < kept <= HISTORY_CAP,
                t < frames <= kept,
                n <= DF_ORDER,
                forall|s: int, k: int|
                    0 <= s < t && 0 <= k < DF_ORDER && tap_in_range(s, k, frames as int)
                        ==> #[trigger] coef_index(k, s, DF_BINS - 1, frames as int) + 1 < coefs,
                forall|k: int|
                    0 <= k < n && tap_in_range(t as int, k, frames as int)
                        ==> #[trigger] coef_index(k, t as int, DF_BINS - 1, frames as int) + 1
                        < coefs,
            decreases DF_ORDER - n,
        {
            assert(n * frames <= DF_ORDER * HISTORY_CAP) by (nonlinear_arith)
                requires
                    n < DF_ORDER,
                    frames <= HISTORY_CAP,
            ;
            let at: usize = ((n * frames + t) * DF_BINS + (DF_BINS - 1)) * 2;
            let read = t + n >= DF_PAD_BEFORE && t + n - DF_PAD_BEFORE < frames;
            assert(read == tap_in_range(t as int, n as int, frames as int));
            assert(at == coef_index(n as int, t as int, DF_BINS - 1, frames as int));
            if read && at + 1 >= coefs {
                return false;
            }
            n += 1;
        }
        t += 1;
    }
    true
}

impl<T: Copy + Add<Output = T> + Mul<Output = T> + Sub<Output = T>> UpallaPlugin<T> {
    /// Whether the result that is last once `response` came fits the spectra that will be kept.
    pub fn accepts<A, D>(
        &self,
        engines: &Engines<A, D>,
        block: &Vec<Vec<T>>,
        response: &Option<GpuResponse<T>>,
    ) -> (ok: bool)
        requires
            self.wf(),
            block@.len() > 0,
        ensures
            ok == response_fits(*self, *engines, block@, *response),
    {
        let channels: usize = if block.len() < MAX_CHANNELS {
            block.len()
        } else {
            MAX_CHANNELS
        };
        let settled = channels == self.channels && engines.stft_in.len() > 0;
        let waiting: usize = if settled {
            self.input_buf[0].len()
        } else {
            0
        };
        let before: usize = if settled {
            self.spec_real_history.len()
        } else {
            0
        };
        let hops: u128 = if engines.cpu.is_some() {
            0
        } else {
            (waiting as u128 + block[0].len() as u128) / HOP_SIZE as u128
        };
        let kept: usize = if before as u128 + hops < HISTORY_CAP as u128 {
            before + hops as usize
        } else {
            HISTORY_CAP
        };
        assert(kept == kept_then(*self, *engines, block@));
        match response {
            Some(r) => fits(r.df_coefs.len(), r.processed_frames, kept),
            None => match &self.last_coefs {
                Some(coefs) => self.last_mask.is_none() || fits(
                    coefs.len(),
                    self.last_num_frames,
                    kept,
                ),
                None => true,
            },
        }
    }

    /// Takes a block in.
    fn take_in<
        A,
        D,
        F: Fn(A, &Vec<T>) -> (A, (Vec<T>, Vec<T>)),
        H: Fn(D, &Vec<T>) -> (D, Vec<T>),
    >(
        &mut self,
        engines: &mut Engines<A, D>,
        block: &Vec<Vec<T>>,
        forward: &F,
        denoise: &H,
        zero: T,
    )
        requires
            old(self).wf(),
            0 < old(self).channels <= block@.len(),
            old(self).channels <= old(engines).stft_in@.len(),
            forall|s: A, row: &Vec<T>| #[trigger] forward.requires((s, row)),
            forall|s: A, row: &Vec<T>, out: (A, (Vec<T>, Vec<T>))| #[trigger]
                forward.ensures((s, row), out) ==> out.1.0@.len() == FREQ_BINS && out.1.1@.len()
                    == FREQ_BINS,
            forall|s: D, row: &Vec<T>| #[trigger] denoise.requires((s, row)),
        ensures
            final(self).wf(),
            final(engines).stft_in@.len() == old(engines).stft_in@.len(),
            taken_in(
                *old(self),
                *final(self),
                *old(engines),
                *final(engines),
                block@,
                *forward,
                *denoise,
                zero,
            ),
    {
        let mut ch: usize = 0;
        while ch < self.channels
            invariant
                ch <= self.channels,
                self.wf(),
                self.channels == old(self).channels,
                self.channels <= block@.len(),
                self.output_buf == old(self).output_buf,
                self.same_spectra(old(self)),
                self.vad_grace_remaining == old(self).vad_grace_remaining,
                self.input_buf@.len() == old(self).input_buf@.len(),
                forall|c: int|
                    0 <= c < ch ==> (#[trigger] self.input_buf@[c])@ == old(self).input_buf@[c]@
                        + block@[c]@,
                forall|c: int|
                    ch <= c < old(self).input_buf@.len() ==> #[trigger] self.input_buf@[c] == old(
                        self).input_buf@[c],
            decreases self.channels - ch,
        {
            let ghost held = self.input_buf@;
            self.push_input(ch, &block[ch]);
            assert forall|c: int| 0 <= c < ch + 1 implies (#[trigger] self.input_buf@[c])@ == old(
                self,
            ).input_buf@[c]@ + block@[c]@ by {
                if c < ch {
                    assert(self.input_buf@[c] == held[c]);
                } else {
                    assert(held[c] == old(self).input_buf@[c]);
                }
            }
            ch += 1;
        }
        let ghost mid = *self;
        assert(pushed(*old(self), mid, block@));
        match engines.cpu.take() {
            Some(state) => {
                let (state, hops) = self.process_cpu_fallback(denoise, state, zero);
                engines.cpu = Some(state);
            },
            None => {
                let hops: usize = self.analyse(forward, &mut engines.stft_in, zero);
            },
        }
    }

    /// Gives a block of `n` samples out.
    fn give_out<
        A,
        D,
        G: Fn(A, &Vec<T>, &Vec<T>) -> (A, Vec<T>),
        V: Fn(&VecDeque<T>) -> bool,
    >(
        &mut self,
        engines: &mut Engines<A, D>,
        response: Option<GpuResponse<T>>,
        n: usize,
        inverse: &G,
        voice: &V,
        zero: T,
    ) -> (out: (Vec<Vec<T>>, Option<GpuTask<T>>))
        requires
            old(self).wf(),
            0 < old(self).channels <= old(engines).stft_out@.len(),
            noted(*old(self), response).can_apply(),
            adds::<T>(),
            multiplies::<T>(),
            subtracts::<T>(),
            forall|s: A, re: &Vec<T>, im: &Vec<T>| #[trigger] inverse.requires((s, re, im)),
            forall|buf: &VecDeque<T>| #[trigger] voice.requires((buf,)),
        ensures
            final(self).wf(),
            final(engines).stft_out@.len() == old(engines).stft_out@.len(),
            given_out(
                *old(self),
                *final(self),
                *old(engines),
                *final(engines),
                response,
                n as nat,
                *inverse,
                *voice,
                zero,
                out.0@,
                out.1,
            ),
    {
        let ghost then = noted(*self, response);
        if let Some(r) = response {
            self.accept_response(r);
        }
        assert(*self == then);
        let channels: usize = self.channels;
        self.try_apply_results(inverse, &mut engines.stft_out, channels, zero);
        let ghost mid = *self;
        assert(applied_to_all(
            then,
            mid,
            *inverse,
            old(engines).stft_out@,
            engines.stft_out@,
            zero,
        ));
        let task = self.next_task(engines.has_worker);
        assert(batch_due(mid, *self, task, engines.has_worker));
        let heard = voice(&self.output_buf[0]);
        assert(voice.ensures((&mid.output_buf@[0],), heard));
        self.apply_vad_gating(heard);
        let ghost gated = *self;
        let mut rows: Vec<Vec<T>> = Vec::new();
        let mut ch: usize = 0;
        while ch < channels
            invariant
                ch <= channels,
                channels == gated.channels,
                gated.wf(),
                gated.output_buf == mid.output_buf,
                self.wf(),
                self.channels == gated.channels,
                self.input_buf == gated.input_buf,
                self.same_spectra(&gated),
                self.vad_grace_remaining == gated.vad_grace_remaining,
                self.output_buf@.len() == gated.output_buf@.len(),
                rows@.len() == ch,
                forall|c: int|
                    0 <= c < ch ==> (#[trigger] rows@[c])@ == drained(
                        gated.output_buf@[c]@,
                        gated.vad_grace_remaining == 0,
                        n as nat,
                        zero,
                    ),
                forall|c: int|
                    0 <= c < ch ==> (#[trigger] self.output_buf@[c])@ == without(
                        gated.output_buf@[c]@,
                        n as nat,
                    ),
                forall|c: int|
                    ch <= c < gated.output_buf@.len() ==> #[trigger] self.output_buf@[c]
                        == gated.output_buf@[c],
            decreases channels - ch,
        {
            let ghost held = self.output_buf@;
            let row = self.drain_output(ch, n, zero);
            rows.push(row);
            assert forall|c: int| 0 <= c < ch + 1 implies (#[trigger] self.output_buf@[c])@
                == without(gated.output_buf@[c]@, n as nat) by {
                if c < ch {
                    assert(self.output_buf@[c] == held[c]);
                } else {
                    assert(held[c] == gated.output_buf@[c]);
                }
            }
            ch += 1;
        }
        (rows, task)
    }

    /// Processes a block of audio, one row of samples for each channel, of which the plugin handles
    /// [`MAX_CHANNELS`] at most.
    ///
    /// The plugin adapts to the number of channels first, with transforms that `fresh` makes. While it is
    /// bypassed nothing else happens. Where no model was found audio passes through unprocessed. Else the
    /// block is taken in, and as many samples are given out: nothing but silence, where the model that was
    /// found could not be loaded.
    pub fn process<
        A,
        D,
        R: Fn() -> A,
        F: Fn(A, &Vec<T>) -> (A, (Vec<T>, Vec<T>)),
        G: Fn(A, &Vec<T>, &Vec<T>) -> (A, Vec<T>),
        H: Fn(D, &Vec<T>) -> (D, Vec<T>),
        V: Fn(&VecDeque<T>) -> bool,
    >(
        &mut self,
        engines: &mut Engines<A, D>,
        block: &Vec<Vec<T>>,
        bypass: bool,
        response: Option<GpuResponse<T>>,
        fresh: &R,
        forward: &F,
        inverse: &G,
        denoise: &H,
        voice: &V,
        zero: T,
    ) -> (out: Processed<T>)
        requires
            old(self).wf(),
            old(engines).covers(old(self).channels),
            !bypass ==> block@.len() > 0,
            !bypass && old(engines).backend() != Backend::PassThrough ==> response_fits(
                *old(self),
                *old(engines),
                block@,
                response,
            ),
            adds::<T>(),
            multiplies::<T>(),
            subtracts::<T>(),
            fresh.requires(()),
            forall|s: A, row: &Vec<T>| #[trigger] forward.requires((s, row)),
            forall|s: A, row: &Vec<T>, out: (A, (Vec<T>, Vec<T>))| #[trigger]
                forward.ensures((s, row), out) ==> out.1.0@.len() == FREQ_BINS && out.1.1@.len()
                    == FREQ_BINS,
            forall|s: A, re: &Vec<T>, im: &Vec<T>| #[trigger] inverse.requires((s, re, im)),
            forall|s: D, row: &Vec<T>| #[trigger] denoise.requires((s, row)),
            forall|buf: &VecDeque<T>| #[trigger] voice.requires((buf,)),
        ensures
            final(self).wf(),
            final(engines).covers(final(self).channels),
            final(self).channels == handled(block@),
            out.output is None <==> bypass,
            old(engines).backend() == Backend::PassThrough ==> (out.output matches Some(rows) ==> {
                &&& rows@.len() == handled(block@)
                &&& forall|c: int| 0 <= c < rows@.len() ==> (#[trigger] rows@[c])@ == block@[c]@
            }),
            bypass || old(engines).backend() == Backend::PassThrough ==> {
                &&& out.task is None
                &&& adapted(
                    *old(self),
                    *final(self),
                    handled(block@),
                    unsettled(*old(self), *old(engines), handled(block@)),
                )
                &&& renewed(
                    *old(engines),
                    *final(engines),
                    *fresh,
                    handled(block@),
                    unsettled(*old(self), *old(engines), handled(block@)),
                )
            },
            !bypass && old(engines).backend() != Backend::PassThrough ==> processed(
                *old(self),
                *final(self),
                *old(engines),
                *final(engines),
                block@,
                response,
                *fresh,
                *forward,
                *inverse,
                *denoise,
                *voice,
                zero,
                out,
            ),
    {
        let channels: usize = if block.len() < MAX_CHANNELS {
            block.len()
        } else {
            MAX_CHANNELS
        };
        let changed = self.reinit_channels(channels, engines.stft_in.len() > 0);
        if changed {
            engines.stft_in = make_transforms(fresh, channels);
            engines.stft_out = make_transforms(fresh, channels);
        }
        let ghost ready = *self;
        let ghost made = *engines;
        assert(adapted(*old(self), ready, channels, changed));
        assert(renewed(*old(engines), made, *fresh, channels, changed));
        if bypass {
            return Processed { output: None, task: None };
        }
        if !engines.has_worker && engines.cpu.is_none() && !engines.found {
            let rows = first_rows(block, channels);
            return Processed { output: Some(rows), task: None };
        }
        let n: usize = block[0].len();
        self.take_in(engines, block, forward, denoise, zero);
        let ghost mid = *self;
        let ghost used = *engines;
        assert(taken_in(ready, mid, made, used, block@, *forward, *denoise, zero));
        proof {
            let pushed_in = choose|p: UpallaPlugin<T>|
                {
                    &&& #[trigger] pushed(ready, p, block@)
                    &&& hops_taken(p, mid, p.input_buf@[0]@.len() / HOP_SIZE as nat)
                    &&& match made.cpu {
                        Some(state) => mid.same_spectra(&ready) && used.stft_in == made.stft_in,
                        None => all_analysed(
                            p,
                            mid,
                            *forward,
                            made.stft_in@,
                            used.stft_in@,
                            p.input_buf@[0]@.len() / HOP_SIZE as nat,
                            zero,
                        ),
                    }
                };
            lemma_kept_then(*old(self), *old(engines), ready, pushed_in, mid, block@);
        }
        let (rows, task) = self.give_out(engines, response, n, inverse, voice, zero);
        Processed { output: Some(rows), task }
    }
}

/// At most two channels are handled, and all of them where there are no more.
pub proof fn lemma_channels_handled<T>(block: Seq<Vec<T>>)
    ensures
        handled(block) <= 2,
        handled(block) <= block.len(),
        handled(block) == 2 || handled(block) == block.len(),
{
}

/// Which engine works: the worker before all others, then the one that runs here; with neither there is
/// silence where a network was found, and the audio passes where none was.
pub proof fn lemma_worker_goes_first<A, D>(engines: Engines<A, D>)
    ensures
        engines.backend() == Backend::Worker <==> engines.has_worker,
        engines.backend() == Backend::Cpu <==> !engines.has_worker && engines.cpu is Some,
        engines.backend() == Backend::Silent <==> !engines.has_worker && engines.cpu is None
            && engines.found,
        engines.backend() == Backend::PassThrough <==> !engines.has_worker && engines.cpu is None
            && !engines.found,
{
}

/// When a plugin starts anew: with another number of channels, or where it has not begun yet; and only then.
pub proof fn lemma_settled_while_channels_stay<T, A, D>(
    plugin: UpallaPlugin<T>,
    engines: Engines<A, D>,
    channels: usize,
)
    ensures
        channels != plugin.channels ==> unsettled(plugin, engines, channels),
        engines.stft_in@.len() == 0 ==> unsettled(plugin, engines, channels),
        channels == plugin.channels && engines.stft_in@.len() > 0 ==> !unsettled(plugin, engines, channels),
{
}

/// An answer of the worker becomes the result to apply and makes way for the next batch; without one nothing
/// changes.
pub proof fn lemma_answer_replaces_the_result<T>(plugin: UpallaPlugin<T>, answer: GpuResponse<T>)
    ensures
        noted(plugin, None) == plugin,
        ({
            let after = noted(plugin, Some(answer));
            &&& after.last_mask == Some(answer.erb_mask)
            &&& after.last_coefs == Some(answer.df_coefs)
            &&& after.last_num_frames == answer.processed_frames
            &&& !after.pending_task
            &&& after.input_buf == plugin.input_buf
            &&& after.output_buf == plugin.output_buf
            &&& after.spec_real_history == plugin.spec_real_history
            &&& after.spec_imag_history == plugin.spec_imag_history
            &&& after.last_sent_frame == plugin.last_sent_frame
            &&& after.channels == plugin.channels
            &&& after.vad_grace_remaining == plugin.vad_grace_remaining
        }),
{
}

/// When a batch is sent: with a worker that is not busy and eight frames or more that it has not got yet. The
/// batch is all of these, each with its first channel; the next one begins behind them.
pub proof fn lemma_batch_is_all_that_is_new<T>(
    before: UpallaPlugin<T>,
    after: UpallaPlugin<T>,
    task: Option<GpuTask<T>>,
    has_worker: bool,
    i: int,
)
    requires
        batch_due(before, after, task, has_worker),
        before.spec_real_history@.len() == before.spec_imag_history@.len(),
        before.last_sent_frame <= before.spec_real_history@.len(),
    ensures
        !has_worker || before.pending_task ==> task is None,
        before.spec_real_history@.len() < before.last_sent_frame + 8 ==> task is None,
        has_worker && !before.pending_task && before.spec_real_history@.len() >= before.last_sent_frame + 8
            ==> task is Some,
        task is None ==> after.pending_task == before.pending_task && after.last_sent_frame
            == before.last_sent_frame,
        task matches Some(t) ==> {
            &&& after.pending_task
            &&& after.last_sent_frame == before.spec_real_history@.len()
            &&& t.num_frames + before.last_sent_frame == before.spec_real_history@.len()
            &&& t.spec_real@.len() == t.num_frames && t.spec_imag@.len() == t.num_frames
            &&& 0 <= i < t.num_frames ==> t.spec_real@[i]@
                == before.spec_real_history@[before.last_sent_frame + i]@[0]@ && t.spec_imag@[i]@
                == before.spec_imag_history@[before.last_sent_frame + i]@[0]@
        },
{
    if let Some(t) = task {
        if 0 <= i < t.num_frames {
            let reals = before.spec_real_history@.skip(before.last_sent_frame as int);
            let imags = before.spec_imag_history@.skip(before.last_sent_frame as int);
            assert(t.spec_real@[i]@ == reals[i]@[0]@);
            assert(t.spec_imag@[i]@ == imags[i]@[0]@);
        }
    }
}

/// How many frames will be kept: those that are, and one for each whole hop that comes together, up to 64;
/// none comes together where the network runs here, and a plugin that starts anew begins with none.
pub proof fn lemma_frames_kept_then<T, A, D>(
    plugin: UpallaPlugin<T>,
    engines: Engines<A, D>,
    block: Seq<Vec<T>>,
)
    ensures
        kept_then(plugin, engines, block) <= 64,
        engines.stft_in@.len() > 0 && plugin.channels == handled(block) && engines.cpu is None ==> ({
            let hops = (plugin.input_buf@[0]@.len() + block[0]@.len()) / 480;
            let kept = plugin.spec_real_history@.len() + hops;
            kept_then(plugin, engines, block) == if kept <= 64 {
                kept
            } else {
                64
            }
        }),
        engines.stft_in@.len() == 0 && engines.cpu is None ==> ({
            let hops = block[0]@.len() / 480;
            kept_then(plugin, engines, block) == if hops <= 64 {
                hops
            } else {
                64
            }
        }),
        engines.stft_in@.len() == 0 && engines.cpu is Some ==> kept_then(plugin, engines, block) == 0,
{
}

/// A block is put behind what waits, channel by channel, and nothing else changes.
pub proof fn lemma_block_goes_behind<T>(
    before: UpallaPlugin<T>,
    after: UpallaPlugin<T>,
    block: Seq<Vec<T>>,
    c: int,
    i: int,
)
    requires
        pushed(before, after, block),
        0 <= c < before.channels,
    ensures
        after.input_buf@[c]@.len() == before.input_buf@[c]@.len() + block[c]@.len(),
        0 <= i < before.input_buf@[c]@.len() ==> after.input_buf@[c]@[i] == before.input_buf@[c]@[i],
        0 <= i < block[c]@.len() ==> after.input_buf@[c]@[before.input_buf@[c]@.len() + i] == block[c]@[i],
        after.output_buf == before.output_buf,
        after.spec_real_history == before.spec_real_history,
        after.spec_imag_history == before.spec_imag_history,
        after.last_mask == before.last_mask && after.last_coefs == before.last_coefs,
        after.pending_task == before.pending_task,
        after.channels == before.channels,
{
    let _ = after.input_buf@[c];
}

/// A plugin that starts anew has nothing waiting and no spectra, and keeps its result; one that does not is
/// left as it is.
pub proof fn lemma_new_start_is_empty<T>(
    before: UpallaPlugin<T>,
    after: UpallaPlugin<T>,
    channels: usize,
    changed: bool,
    c: int,
)
    requires
        adapted(before, after, channels, changed),
        0 <= c < channels,
    ensures
        !changed ==> after == before,
        changed ==> {
            &&& after.channels == channels
            &&& after.input_buf@.len() == channels && after.output_buf@.len() == channels
            &&& after.input_buf@[c]@.len() == 0 && after.output_buf@[c]@.len() == 0
            &&& after.spec_real_history@.len() == 0 && after.spec_imag_history@.len() == 0
            &&& after.last_sent_frame == 0
            &&& after.last_mask == before.last_mask && after.last_coefs == before.last_coefs
            &&& after.last_num_frames == before.last_num_frames
            &&& after.pending_task == before.pending_task
            &&& after.vad_grace_remaining == before.vad_grace_remaining
        },
{
    if changed {
        let _ = after.input_buf@[c];
        let _ = after.output_buf@[c];
    }
}

/// What a block reads is the front of what is to be played, channel by channel: the audio itself while the
/// output is open and silence while it is closed; the same samples go either way, and audio that has run out
/// is followed by silence.
pub proof fn lemma_block_reads_the_front<
    T: Copy + Add<Output = T> + Mul<Output = T> + Sub<Output = T>,
    A,
    D,
    G: Fn(A, &Vec<T>, &Vec<T>) -> (A, Vec<T>),
    V: Fn(&VecDeque<T>) -> bool,
>(
    before: UpallaPlugin<T>,
    after: UpallaPlugin<T>,
    from: Engines<A, D>,
    to: Engines<A, D>,
    response: Option<GpuResponse<T>>,
    n: nat,
    inverse: G,
    voice: V,
    zero: T,
    rows: Seq<Vec<T>>,
    task: Option<GpuTask<T>>,
)
    requires
        given_out(before, after, from, to, response, n, inverse, voice, zero, rows, task),
    ensures
        rows.len() == after.channels,
        after.channels == before.channels,
        exists|mid: UpallaPlugin<T>, heard: bool|
            {
                &&& #[trigger] applied_to_all(
                    noted(before, response),
                    mid,
                    inverse,
                    from.stft_out@,
                    to.stft_out@,
                    zero,
                )
                &&& #[trigger] voice.ensures((&mid.output_buf@[0],), heard)
                &&& heard ==> after.vad_grace_remaining == 20
                &&& !heard && mid.vad_grace_remaining > 0 ==> after.vad_grace_remaining + 1
                    == mid.vad_grace_remaining
                &&& !heard && mid.vad_grace_remaining == 0 ==> after.vad_grace_remaining == 0
                &&& forall|c: int|
                    0 <= c < before.channels ==> {
                        let out = mid.output_buf@[c]@;
                        &&& (#[trigger] rows[c])@.len() == n
                        &&& after.vad_grace_remaining == 0 ==> rows[c]@ == repeated(zero, n)
                        &&& after.vad_grace_remaining > 0 && n <= out.len() ==> rows[c]@
                            + after.output_buf@[c]@ == out
                        &&& after.vad_grace_remaining > 0 && n > out.len() ==> rows[c]@ == out + repeated(
                            zero,
                            (n - out.len()) as nat,
                        )
                        &&& n <= out.len() ==> after.output_buf@[c]@.len() == out.len() - n
                        &&& n > out.len() ==> after.output_buf@[c]@.len() == 0
                    }
            },
{
    let (mid, heard) = choose|mid: UpallaPlugin<T>, heard: bool|
        {
            &&& #[trigger] applied_to_all(
                noted(before, response),
                mid,
                inverse,
                from.stft_out@,
                to.stft_out@,
                zero,
            )
            &&& #[trigger] voice.ensures((&mid.output_buf@[0],), heard)
            &&& batch_due(mid, after, task, from.has_worker)
            &&& after.channels == mid.channels
            &&& after.input_buf == mid.input_buf
            &&& after.spec_real_history == mid.spec_real_history
            &&& after.spec_imag_history == mid.spec_imag_history
            &&& after.same_results(&mid)
            &&& after.vad_grace_remaining == open_after(mid.vad_grace_remaining, heard)
            &&& after.output_buf@.len() == mid.output_buf@.len()
            &&& rows.len() == mid.channels
            &&& forall|c: int|
                0 <= c < mid.channels ==> (#[trigger] rows[c])@ == drained(
                    mid.output_buf@[c]@,
                    after.vad_grace_remaining == 0,
                    n,
                    zero,
                )
            &&& forall|c: int|
                0 <= c < mid.channels ==> (#[trigger] after.output_buf@[c])@ == without(
                    mid.output_buf@[c]@,
                    n,
                )
            &&& forall|c: int|
                mid.channels <= c < mid.output_buf@.len() ==> #[trigger] after.output_buf@[c]
                    == mid.output_buf@[c]
        };
    assert forall|c: int| 0 <= c < before.channels implies ({
        let out = mid.output_buf@[c]@;
        &&& (#[trigger] rows[c])@.len() == n
        &&& after.vad_grace_remaining == 0 ==> rows[c]@ == repeated(zero, n)
        &&& after.vad_grace_remaining > 0 && n <= out.len() ==> rows[c]@ + after.output_buf@[c]@ == out
        &&& after.vad_grace_remaining > 0 && n > out.len() ==> rows[c]@ == out + repeated(
            zero,
            (n - out.len()) as nat,
        )
        &&& n <= out.len() ==> after.output_buf@[c]@.len() == out.len() - n
        &&& n > out.len() ==> after.output_buf@[c]@.len() == 0
    }) by {
        let _ = after.output_buf@[c];
        lemma_read_and_rest_make_the_buffer(mid.output_buf@[c]@, n, zero);
    }
}

/// After a block less than a hop waits in the first channel: whole hops went, as many as had come together.
pub proof fn lemma_less_than_a_hop_waits<
    T,
    A,
    D,
    F: Fn(A, &Vec<T>) -> (A, (Vec<T>, Vec<T>)),
    H: Fn(D, &Vec<T>) -> (D, Vec<T>),
>(
    before: UpallaPlugin<T>,
    after: UpallaPlugin<T>,
    from: Engines<A, D>,
    to: Engines<A, D>,
    block: Seq<Vec<T>>,
    forward: F,
    denoise: H,
    zero: T,
)
    requires
        taken_in(before, after, from, to, block, forward, denoise, zero),
        before.channels > 0,
    ensures
        ({
            let waiting = before.input_buf@[0]@ + block[0]@;
            let rest = after.input_buf@[0]@;
            &&& rest.len() < 480
            &&& rest.len() <= waiting.len()
            &&& (waiting.len() - rest.len()) % 480 == 0
            &&& rest == waiting.skip(waiting.len() - rest.len())
        }),
        from.cpu is None ==> after.output_buf == before.output_buf,
        from.cpu is Some ==> after.spec_real_history == before.spec_real_history && to.stft_in
            == from.stft_in,
        to.cpu is Some <==> from.cpu is Some,
{
    let mid = choose|mid: UpallaPlugin<T>|
        {
            &&& #[trigger] pushed(before, mid, block)
            &&& hops_taken(mid, after, mid.input_buf@[0]@.len() / HOP_SIZE as nat)
            &&& match from.cpu {
                Some(state) => {
                    &&& to.stft_in == from.stft_in
                    &&& after.same_spectra(&before)
                    &&& to.cpu is Some
                    &&& all_denoised(
                        mid,
                        after,
                        denoise,
                        state,
                        to.cpu->Some_0,
                        mid.input_buf@[0]@.len() / HOP_SIZE as nat,
                    )
                },
                None => {
                    &&& to.cpu is None
                    &&& after.output_buf == before.output_buf
                    &&& all_analysed(
                        mid,
                        after,
                        forward,
                        from.stft_in@,
                        to.stft_in@,
                        mid.input_buf@[0]@.len() / HOP_SIZE as nat,
                        zero,
                    )
                },
            }
        };
    let waiting = mid.input_buf@[0]@;
    let hops = waiting.len() / HOP_SIZE as nat;
    assert(waiting == before.input_buf@[0]@ + block[0]@);
    assert(after.input_buf@[0]@ == without(waiting, (hops * HOP_SIZE) as nat));
    assert(hops * HOP_SIZE <= waiting.len() < hops * HOP_SIZE + 480);
}

} // verus!
