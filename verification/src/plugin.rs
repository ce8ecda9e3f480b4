//! The LV2 plugin: blocks in and out, spectra to a worker in batches, and gating of silence.
use vstd::prelude::*;
use std::collections::VecDeque;
use std::ops::{Add, Mul, Sub};

use crate::config::{DF_BINS, DF_ORDER, FREQ_BINS, HOP_SIZE, TOTAL_LATENCY_SAMPLES};
use crate::dsp::{
    FilterView, adds, apply_deep_filter, bin_filtered, coef_index, exact, exact_differences,
    filter_view, lemma_deep_filter_sums_five_taps, multiplies, subtracts, tap_in_range,
};
use crate::network::{repeat, repeated};
use crate::queue::{GpuResponse, GpuTask};
use crate::rolling::copy_row;

verus! {

/// Spectra that are kept.
pub const HISTORY_CAP: usize = 64;

/// New spectra that make a batch.
pub const BATCH_FRAMES: usize = 8;

/// Blocks for which the output stays open after the last voice.
pub const GRACE_BLOCKS: usize = 20;

/// Channels that the plugin handles.
pub const MAX_CHANNELS: usize = 2;

/// The spectrum of one frame: for each of `channels` channels, of which there is one at least, a row
/// of bins.
pub open spec fn spectrum_ok<T>(spectrum: Vec<Vec<T>>, channels: usize) -> bool {
    &&& spectrum@.len() == channels
    &&& channels > 0
    &&& forall|c: int| 0 <= c < spectrum@.len() ==> (#[trigger] spectrum@[c])@.len() == FREQ_BINS
}

/// State of the plugin.
pub struct UpallaPlugin<T> {
    /// For each channel the input that does not fill a hop yet.
    pub input_buf: Vec<VecDeque<T>>,
    /// For each channel the output that waits to be delivered.
    pub output_buf: Vec<VecDeque<T>>,
    pub spec_real_history: Vec<Vec<Vec<T>>>,
    pub spec_imag_history: Vec<Vec<Vec<T>>>,
    pub channels: usize,
    /// A batch is with the worker.
    pub pending_task: bool,
    /// Kept spectra that the worker was sent.
    pub last_sent_frame: usize,
    pub last_mask: Option<Vec<T>>,
    pub last_coefs: Option<Vec<T>>,
    pub last_num_frames: usize,
    /// Blocks for which the output still stays open.
    pub vad_grace_remaining: usize,
}

/// `n` empty buffers.
fn empty_buffers<T>(n: usize) -> (bufs: Vec<VecDeque<T>>)
    ensures
        all_empty(bufs@, n as nat),
{
    let mut bufs: Vec<VecDeque<T>> = Vec::new();
    while bufs.len() < n
        invariant
            bufs@.len() <= n,
            all_empty(bufs@, bufs@.len()),
        decreases n - bufs@.len(),
    {
        bufs.push(VecDeque::new());
    }
    bufs
}

/// There are `n` buffers, and they are empty.
pub open spec fn all_empty<T>(bufs: Seq<VecDeque<T>>, n: nat) -> bool {
    &&& bufs.len() == n
    &&& forall|c: int| 0 <= c < n ==> (#[trigger] bufs[c])@.len() == 0
}

/// The first hop of a buffer, filled up with `zero` where the buffer is too short.
pub open spec fn hop_of<T>(buf: Seq<T>, zero: T) -> Seq<T> {
    if buf.len() >= HOP_SIZE {
        buf.take(HOP_SIZE as int)
    } else {
        buf + repeated(zero, (HOP_SIZE - buf.len()) as nat)
    }
}

/// The first hop of each of the first `n` buffers.
pub open spec fn hops_of<T>(bufs: Seq<VecDeque<T>>, n: nat, zero: T) -> Seq<Seq<T>> {
    Seq::new(n, |c: int| hop_of(bufs[c]@, zero))
}

/// A buffer without its first `n` samples.
pub open spec fn without<T>(buf: Seq<T>, n: nat) -> Seq<T> {
    if buf.len() >= n {
        buf.skip(n as int)
    } else {
        Seq::empty()
    }
}

impl<T> UpallaPlugin<T> {
    /// The buffers cover the channels, both histories go together and are within bounds, and no more
    /// spectra count as sent than are kept.
    pub open spec fn wf(&self) -> bool {
        &&& self.channels <= self.input_buf@.len()
        &&& self.input_buf@.len() == self.output_buf@.len()
        &&& self.spec_real_history@.len() == self.spec_imag_history@.len()
        &&& self.spec_real_history@.len() <= HISTORY_CAP
        &&& self.last_sent_frame <= self.spec_real_history@.len()
        &&& forall|t: int|
            0 <= t < self.spec_real_history@.len() ==> spectrum_ok(
                #[trigger] self.spec_real_history@[t],
                self.channels,
            )
        &&& forall|t: int|
            0 <= t < self.spec_imag_history@.len() ==> spectrum_ok(
                #[trigger] self.spec_imag_history@[t],
                self.channels,
            )
    }

    /// Histories and what was made of them are as in `other`.
    pub open spec fn same_spectra(&self, other: &Self) -> bool {
        &&& self.spec_real_history == other.spec_real_history
        &&& self.spec_imag_history == other.spec_imag_history
        &&& self.pending_task == other.pending_task
        &&& self.last_sent_frame == other.last_sent_frame
        &&& self.same_results(other)
    }

    /// The last results are as in `other`.
    pub open spec fn same_results(&self, other: &Self) -> bool {
        &&& self.last_mask == other.last_mask
        &&& self.last_coefs == other.last_coefs
        &&& self.last_num_frames == other.last_num_frames
    }

    /// A plugin that has seen nothing.
    pub fn new() -> (plugin: Self)
        ensures
            plugin.wf(),
            plugin.channels == 1,
            all_empty(plugin.input_buf@, 2),
            all_empty(plugin.output_buf@, 2),
            plugin.spec_real_history@.len() == 0,
            !plugin.pending_task,
            plugin.last_sent_frame == 0,
            plugin.last_mask is None,
            plugin.last_coefs is None,
            plugin.last_num_frames == 0,
            plugin.vad_grace_remaining == 0,
    {
        UpallaPlugin {
            input_buf: empty_buffers(2),
            output_buf: empty_buffers(2),
            spec_real_history: Vec::new(),
            spec_imag_history: Vec::new(),
            channels: 1,
            pending_task: false,
            last_sent_frame: 0,
            last_mask: None,
            last_coefs: None,
            last_num_frames: 0,
            vad_grace_remaining: 0,
        }
    }

    /// Adapts to the number of channels. Where it has changed, or nothing was set up yet, everything
    /// that waits is dropped, and the caller sets its transforms up anew.
    pub fn reinit_channels(&mut self, num_channels: usize, set_up: bool) -> (changed: bool)
        requires
            old(self).wf(),
        ensures
            final(self).wf(),
            changed == !(num_channels == old(self).channels && set_up),
            !changed ==> *final(self) == *old(self),
            final(self).channels == num_channels,
            changed ==> all_empty(final(self).input_buf@, num_channels as nat) && all_empty(
                final(self).output_buf@,
                num_channels as nat,
            ) && final(self).spec_real_history@.len() == 0 && final(self).last_sent_frame == 0,
            final(self).same_results(old(self)),
            final(self).pending_task == old(self).pending_task,
            final(self).vad_grace_remaining == old(self).vad_grace_remaining,
    {
        if num_channels == self.channels && set_up {
            return false;
        }
        self.channels = num_channels;
        self.input_buf = empty_buffers(num_channels);
        self.output_buf = empty_buffers(num_channels);
        self.spec_real_history = Vec::new();
        self.spec_imag_history = Vec::new();
        self.last_sent_frame = 0;
        true
    }

    /// Starts anew: kept spectra are forgotten, and the output is muted.
    pub fn reset(&mut self)
        requires
            old(self).wf(),
        ensures
            final(self).wf(),
            final(self).spec_real_history@.len() == 0,
            final(self).last_sent_frame == 0,
            !final(self).pending_task,
            final(self).vad_grace_remaining == 0,
            final(self).channels == old(self).channels,
            final(self).input_buf == old(self).input_buf,
            final(self).output_buf == old(self).output_buf,
            final(self).same_results(old(self)),
    {
        self.spec_real_history = Vec::new();
        self.spec_imag_history = Vec::new();
        self.last_sent_frame = 0;
        self.pending_task = false;
        self.vad_grace_remaining = 0;
    }

    /// Keeps the spectrum of one more frame; beyond [`HISTORY_CAP`] the oldest is dropped.
    pub fn push_spectrum(&mut self, reals: Vec<Vec<T>>, imags: Vec<Vec<T>>)
        requires
            old(self).wf(),
            spectrum_ok(reals, old(self).channels),
            spectrum_ok(imags, old(self).channels),
        ensures
            final(self).wf(),
            final(self).spec_real_history@ == kept(old(self).spec_real_history@, reals),
            final(self).spec_imag_history@ == kept(old(self).spec_imag_history@, imags),
            final(self).last_sent_frame == sent_after(
                old(self).spec_real_history@.len(),
                old(self).last_sent_frame,
            ),
            final(self).channels == old(self).channels,
            final(self).input_buf == old(self).input_buf,
            final(self).output_buf == old(self).output_buf,
            final(self).pending_task == old(self).pending_task,
            final(self).vad_grace_remaining == old(self).vad_grace_remaining,
            final(self).same_results(old(self)),
    {
        let full = self.spec_real_history.len() >= HISTORY_CAP;
        self.spec_real_history.push(reals);
        self.spec_imag_history.push(imags);
        if full {
            let dropped_real = self.spec_real_history.remove(0);
            let dropped_imag = self.spec_imag_history.remove(0);
            self.last_sent_frame = self.last_sent_frame.saturating_sub(1);
        }
        assert(self.spec_real_history@ =~= kept(old(self).spec_real_history@, reals));
        assert(self.spec_imag_history@ =~= kept(old(self).spec_imag_history@, imags));
        assert forall|t: int| 0 <= t < self.spec_real_history@.len() implies spectrum_ok(
            #[trigger] self.spec_real_history@[t],
            self.channels,
        ) by {
            if full && t < HISTORY_CAP - 1 {
                assert(self.spec_real_history@[t] == old(self).spec_real_history@[t + 1]);
            }
        }
        assert forall|t: int| 0 <= t < self.spec_imag_history@.len() implies spectrum_ok(
            #[trigger] self.spec_imag_history@[t],
            self.channels,
        ) by {
            if full && t < HISTORY_CAP - 1 {
                assert(self.spec_imag_history@[t] == old(self).spec_imag_history@[t + 1]);
            }
        }
    }

    /// Kept spectra that the worker was not sent yet.
    pub fn frames_to_send(&self) -> (n: usize)
        requires
            self.wf(),
        ensures
            n == self.spec_real_history@.len() - self.last_sent_frame,
    {
        self.spec_real_history.len() - self.last_sent_frame
    }

    /// Takes note of a result of the worker.
    pub fn accept_response(&mut self, response: GpuResponse<T>)
        requires
            old(self).wf(),
        ensures
            final(self).wf(),
            final(self).last_mask == Some(response.erb_mask),
            final(self).last_coefs == Some(response.df_coefs),
            final(self).last_num_frames == response.processed_frames,
            !final(self).pending_task,
            final(self).channels == old(self).channels,
            final(self).input_buf == old(self).input_buf,
            final(self).output_buf == old(self).output_buf,
            final(self).spec_real_history == old(self).spec_real_history,
            final(self).spec_imag_history == old(self).spec_imag_history,
            final(self).last_sent_frame == old(self).last_sent_frame,
            final(self).vad_grace_remaining == old(self).vad_grace_remaining,
    {
        self.last_mask = Some(response.erb_mask);
        self.last_coefs = Some(response.df_coefs);
        self.last_num_frames = response.processed_frames;
        self.pending_task = false;
    }

    /// How many of the kept spectra the last result is applied to: none before the first result.
    pub open spec fn applied(&self) -> nat {
        if self.last_mask is None || self.last_coefs is None {
            0
        } else if self.last_num_frames <= self.spec_real_history@.len() {
            self.last_num_frames as nat
        } else {
            self.spec_real_history@.len()
        }
    }

    /// How many of the kept spectra the last result is applied to.
    pub fn frames_to_apply(&self) -> (n: usize)
        requires
            self.wf(),
        ensures
            n == self.applied(),
    {
        if self.last_mask.is_none() || self.last_coefs.is_none() {
            return 0;
        }
        if self.last_num_frames < self.spec_real_history.len() {
            self.last_num_frames
        } else {
            self.spec_real_history.len()
        }
    }

    /// Lets sound out while there is voice, and mutes the output [`GRACE_BLOCKS`] blocks after the last.
    pub fn apply_vad_gating(&mut self, voice: bool)
        requires
            old(self).wf(),
        ensures
            final(self).wf(),
            final(self).vad_grace_remaining == open_after(old(self).vad_grace_remaining, voice),
            final(self).channels == old(self).channels,
            final(self).input_buf == old(self).input_buf,
            final(self).output_buf == old(self).output_buf,
            final(self).same_spectra(old(self)),
    {
        if voice {
            self.vad_grace_remaining = GRACE_BLOCKS;
        } else if self.vad_grace_remaining > 0 {
            self.vad_grace_remaining = self.vad_grace_remaining - 1;
        }
    }

    /// The delay that the plugin reports.
    pub fn latency(&self) -> (samples: u32)
        ensures
            samples == TOTAL_LATENCY_SAMPLES,
    {
        TOTAL_LATENCY_SAMPLES as u32
    }
}

/// The kept spectra after one more.
pub open spec fn kept<S>(history: Seq<S>, newest: S) -> Seq<S> {
    if history.len() < HISTORY_CAP {
        history.push(newest)
    } else {
        history.push(newest).drop_first()
    }
}

/// Kept spectra that count as sent, after one more was kept: the one that is dropped counts no more.
pub open spec fn sent_after(kept: nat, sent: usize) -> usize {
    if kept < HISTORY_CAP || sent == 0 {
        sent
    } else {
        (sent - 1) as usize
    }
}

/// Blocks for which sound is still let out, after one block.
pub open spec fn open_after(remaining: usize, voice: bool) -> usize {
    if voice {
        GRACE_BLOCKS
    } else if remaining > 0 {
        (remaining - 1) as usize
    } else {
        0
    }
}

/// Blocks for which sound is still let out, after a run of blocks.
pub open spec fn open_after_all(remaining: usize, voices: Seq<bool>) -> usize
    decreases voices.len(),
{
    if voices.len() == 0 {
        remaining
    } else {
        open_after(open_after_all(remaining, voices.drop_last()), voices.last())
    }
}

/// Sound is let out for [`GRACE_BLOCKS`] blocks after the last voice, and none from then on.
pub proof fn lemma_output_closes_after_grace(remaining: usize, quiet: Seq<bool>)
    requires
        forall|i: int| 0 <= i < quiet.len() ==> !(#[trigger] quiet[i]),
    ensures
        open_after_all(open_after(remaining, true), quiet) == if quiet.len() <= GRACE_BLOCKS {
            GRACE_BLOCKS - quiet.len()
        } else {
            0
        },
    decreases quiet.len(),
{
    if quiet.len() > 0 {
        let before = quiet.drop_last();
        assert forall|i: int| 0 <= i < before.len() implies !(#[trigger] before[i]) by {
            assert(before[i] == quiet[i]);
        }
        lemma_output_closes_after_grace(remaining, before);
        assert(!quiet[quiet.len() - 1]);
    }
}

impl<T: Copy> UpallaPlugin<T> {
    /// Appends a block to the input of a channel.
    pub fn push_input(&mut self, ch: usize, samples: &[T])
        requires
            old(self).wf(),
            ch < old(self).input_buf@.len(),
        ensures
            final(self).wf(),
            final(self).channels == old(self).channels,
            final(self).output_buf == old(self).output_buf,
            final(self).same_spectra(old(self)),
            final(self).vad_grace_remaining == old(self).vad_grace_remaining,
            appended_to(old(self).input_buf@, final(self).input_buf@, ch as int, samples@),
    {
        append_to(&mut self.input_buf, ch, samples);
    }

    /// Appends samples to the output of a channel.
    pub fn push_output(&mut self, ch: usize, samples: &[T])
        requires
            old(self).wf(),
            ch < old(self).output_buf@.len(),
        ensures
            final(self).wf(),
            final(self).channels == old(self).channels,
            final(self).input_buf == old(self).input_buf,
            final(self).same_spectra(old(self)),
            final(self).vad_grace_remaining == old(self).vad_grace_remaining,
            appended_to(old(self).output_buf@, final(self).output_buf@, ch as int, samples@),
    {
        append_to(&mut self.output_buf, ch, samples);
    }

    /// Takes a hop of every channel, once the first channel has one; a channel that has less is filled
    /// up with `zero`.
    pub fn next_hop(&mut self, zero: T) -> (hop: Option<Vec<Vec<T>>>)
        requires
            old(self).wf(),
            old(self).channels > 0,
        ensures
            final(self).wf(),
            final(self).channels == old(self).channels,
            final(self).output_buf == old(self).output_buf,
            final(self).same_spectra(old(self)),
            final(self).vad_grace_remaining == old(self).vad_grace_remaining,
            hop is Some <==> old(self).input_buf@[0]@.len() >= HOP_SIZE,
            hop is None ==> *final(self) == *old(self),
            hop matches Some(h) ==> {
                &&& h@.len() == old(self).channels
                &&& final(self).input_buf@.len() == old(self).input_buf@.len()
                &&& forall|c: int|
                    0 <= c < old(self).channels ==> (#[trigger] h@[c])@ == hop_of(
                        old(self).input_buf@[c]@,
                        zero,
                    )
                &&& forall|c: int|
                    0 <= c < old(self).channels ==> (#[trigger] final(self).input_buf@[c])@
                        == without(old(self).input_buf@[c]@, HOP_SIZE as nat)
                &&& forall|c: int|
                    old(self).channels <= c < old(self).input_buf@.len() ==> #[trigger] final(
                        self).input_buf@[c] == old(self).input_buf@[c]
            },
    {
        if self.input_buf[0].len() < HOP_SIZE {
            return None;
        }
        let ghost before = self.input_buf@;
        let mut hop: Vec<Vec<T>> = Vec::new();
        let mut ch: usize = 0;
        while ch < self.channels
            invariant
                ch <= self.channels,
                self.wf(),
                self.channels == old(self).channels,
                self.output_buf == old(self).output_buf,
                self.same_spectra(old(self)),
                self.vad_grace_remaining == old(self).vad_grace_remaining,
                hop@.len() == ch,
                before == old(self).input_buf@,
                self.input_buf@.len() == before.len(),
                forall|c: int|
                    0 <= c < ch ==> (#[trigger] hop@[c])@ == hop_of(before[c]@, zero),
                forall|c: int|
                    0 <= c < ch ==> (#[trigger] self.input_buf@[c])@ == without(
                        before[c]@,
                        HOP_SIZE as nat,
                    ),
                forall|c: int|
                    ch <= c < before.len() ==> #[trigger] self.input_buf@[c] == before[c],
            decreases self.channels - ch,
        {
            let mut buf: VecDeque<T> = VecDeque::new();
            std::mem::swap(&mut buf, &mut self.input_buf[ch]);
            assert(buf == before[ch as int]);
            let row = take_hop(&mut buf, zero);
            std::mem::swap(&mut buf, &mut self.input_buf[ch]);
            hop.push(row);
            ch += 1;
        }
        Some(hop)
    }

    /// A batch for the worker, once [`BATCH_FRAMES`] new spectra are there and no batch is with it. The
    /// batch holds the first channel of every spectrum that was not sent yet.
    pub fn next_task(&mut self, has_worker: bool) -> (task: Option<GpuTask<T>>)
        requires
            old(self).wf(),
        ensures
            final(self).wf(),
            task is Some <==> has_worker && !old(self).pending_task && old(
                self).spec_real_history@.len() - old(self).last_sent_frame >= BATCH_FRAMES,
            task is None ==> *final(self) == *old(self),
            task matches Some(t) ==> {
                &&& t.num_frames == old(self).spec_real_history@.len() - old(self).last_sent_frame
                &&& first_channels(
                    old(self).spec_real_history@.skip(old(self).last_sent_frame as int),
                    t.spec_real@,
                )
                &&& first_channels(
                    old(self).spec_imag_history@.skip(old(self).last_sent_frame as int),
                    t.spec_imag@,
                )
                &&& final(self).pending_task
                &&& final(self).last_sent_frame == old(self).spec_real_history@.len()
                &&& final(self).channels == old(self).channels
                &&& final(self).input_buf == old(self).input_buf
                &&& final(self).output_buf == old(self).output_buf
                &&& final(self).spec_real_history == old(self).spec_real_history
                &&& final(self).spec_imag_history == old(self).spec_imag_history
                &&& final(self).vad_grace_remaining == old(self).vad_grace_remaining
                &&& final(self).same_results(old(self))
            },
    {
        if !has_worker || self.pending_task || self.frames_to_send() < BATCH_FRAMES {
            return None;
        }
        let start: usize = self.last_sent_frame;
        let end: usize = self.spec_real_history.len();
        let spec_real = channel_from(&self.spec_real_history, start, 0);
        let spec_imag = channel_from(&self.spec_imag_history, start, 0);
        self.pending_task = true;
        self.last_sent_frame = end;
        Some(GpuTask { spec_real, spec_imag, num_frames: end - start })
    }

    /// One channel of every kept spectrum.
    pub fn channel_history(&self, ch: usize) -> (columns: (Vec<Vec<T>>, Vec<Vec<T>>))
        requires
            self.wf(),
            ch < self.channels,
        ensures
            columns.0@.len() == self.spec_real_history@.len(),
            columns.1@.len() == self.spec_imag_history@.len(),
            forall|t: int|
                0 <= t < columns.0@.len() ==> (#[trigger] columns.0@[t])@
                    == self.spec_real_history@[t]@[ch as int]@,
            forall|t: int|
                0 <= t < columns.1@.len() ==> (#[trigger] columns.1@[t])@
                    == self.spec_imag_history@[t]@[ch as int]@,
    {
        (
            channel_from(&self.spec_real_history, 0, ch),
            channel_from(&self.spec_imag_history, 0, ch),
        )
    }

    /// Takes `n` samples of a channel's output. While the output is muted they come out as `zero`, and
    /// what is missing comes out as `zero` in any case.
    pub fn drain_output(&mut self, ch: usize, n: usize, zero: T) -> (out: Vec<T>)
        requires
            old(self).wf(),
            ch < old(self).output_buf@.len(),
        ensures
            final(self).wf(),
            final(self).channels == old(self).channels,
            final(self).input_buf == old(self).input_buf,
            final(self).same_spectra(old(self)),
            final(self).vad_grace_remaining == old(self).vad_grace_remaining,
            out@ == drained(
                old(self).output_buf@[ch as int]@,
                old(self).vad_grace_remaining == 0,
                n as nat,
                zero,
            ),
            final(self).output_buf@.len() == old(self).output_buf@.len(),
            final(self).output_buf@[ch as int]@ == without(
                old(self).output_buf@[ch as int]@,
                n as nat,
            ),
            forall|c: int|
                0 <= c < old(self).output_buf@.len() && c != ch ==> #[trigger] final(
                    self).output_buf@[c] == old(self).output_buf@[c],
    {
        let silence = self.vad_grace_remaining == 0;
        let mut buf: VecDeque<T> = VecDeque::new();
        std::mem::swap(&mut buf, &mut self.output_buf[ch]);
        let ghost start = buf@;
        let mut out: Vec<T> = Vec::new();
        let mut i: usize = 0;
        assert(without(start, 0) =~= start);
        while i < n
            invariant
                i <= n,
                buf@ == without(start, i as nat),
                out@ == drained(start, silence, i as nat, zero),
            decreases n - i,
        {
            match buf.pop_front() {
                Some(s) => {
                    assert(s == start[i as int]);
                    out.push(
                        if silence {
                            zero
                        } else {
                            s
                        },
                    );
                },
                None => {
                    out.push(zero);
                },
            }
            i += 1;
            assert(buf@ =~= without(start, i as nat));
            assert(out@ =~= drained(start, silence, i as nat, zero));
        }
        std::mem::swap(&mut buf, &mut self.output_buf[ch]);
        out
    }
}

/// The first `n` samples of an output buffer, as they are delivered.
pub open spec fn drained<T>(buf: Seq<T>, silence: bool, n: nat, zero: T) -> Seq<T> {
    Seq::new(
        n,
        |i: int|
            if !silence && i < buf.len() {
                buf[i]
            } else {
                zero
            },
    )
}

/// `rows` are the first channels of `spectra`.
pub open spec fn first_channels<T>(spectra: Seq<Vec<Vec<T>>>, rows: Seq<Vec<T>>) -> bool {
    &&& rows.len() == spectra.len()
    &&& forall|i: int| 0 <= i < spectra.len() ==> (#[trigger] rows[i])@ == spectra[i]@[0]@
}

/// One channel of every spectrum from `start` on.
fn channel_from<T: Copy>(history: &Vec<Vec<Vec<T>>>, start: usize, ch: usize) -> (rows: Vec<
    Vec<T>,
>)
    requires
        start <= history@.len(),
        forall|t: int| start <= t < history@.len() ==> ch < (#[trigger] history@[t])@.len(),
    ensures
        rows@.len() == history@.len() - start,
        forall|i: int|
            0 <= i < rows@.len() ==> (#[trigger] rows@[i])@ == history@[start + i]@[ch as int]@,
{
    let mut rows: Vec<Vec<T>> = Vec::new();
    let mut t: usize = start;
    while t < history.len()
        invariant
            start <= t <= history@.len(),
            forall|t: int| start <= t < history@.len() ==> ch < (#[trigger] history@[t])@.len(),
            rows@.len() == t - start,
            forall|i: int|
                0 <= i < rows@.len() ==> (#[trigger] rows@[i])@ == history@[start
                    + i]@[ch as int]@,
        decreases history@.len() - t,
    {
        assert(ch < history@[t as int]@.len());
        rows.push(copy_row(&history[t][ch]));
        t += 1;
    }
    rows
}

/// Buffer `ch` has gained `samples`, and the others are as they were.
pub open spec fn appended_to<T>(
    before: Seq<VecDeque<T>>,
    after: Seq<VecDeque<T>>,
    ch: int,
    samples: Seq<T>,
) -> bool {
    &&& after.len() == before.len()
    &&& after[ch]@ == before[ch]@ + samples
    &&& forall|c: int| 0 <= c < before.len() && c != ch ==> #[trigger] after[c] == before[c]
}

/// Appends samples to one buffer.
fn append_to<T: Copy>(bufs: &mut Vec<VecDeque<T>>, ch: usize, samples: &[T])
    requires
        ch < old(bufs)@.len(),
    ensures
        appended_to(old(bufs)@, final(bufs)@, ch as int, samples@),
{
    let mut buf: VecDeque<T> = VecDeque::new();
    std::mem::swap(&mut buf, &mut bufs[ch]);
    let ghost start = buf@;
    let mut i: usize = 0;
    while i < samples.len()
        invariant
            i <= samples@.len(),
            buf@ == start + samples@.take(i as int),
        decreases samples@.len() - i,
    {
        buf.push_back(samples[i]);
        i += 1;
        assert(buf@ =~= start + samples@.take(i as int));
    }
    assert(samples@.take(i as int) =~= samples@);
    std::mem::swap(&mut buf, &mut bufs[ch]);
}

/// Takes a hop out of a buffer, and fills it up with `zero`.
fn take_hop<T: Copy>(buf: &mut VecDeque<T>, zero: T) -> (hop: Vec<T>)
    ensures
        hop@ == hop_of(old(buf)@, zero),
        final(buf)@ == without(old(buf)@, HOP_SIZE as nat),
{
    let ghost start = buf@;
    let ghost whole = hop_of(start, zero);
    let mut hop: Vec<T> = Vec::with_capacity(HOP_SIZE);
    let mut i: usize = 0;
    assert(without(start, 0) =~= start);
    while i < HOP_SIZE
        invariant
            i <= HOP_SIZE,
            whole == hop_of(start, zero),
            buf@ == without(start, i as nat),
            hop@ == whole.take(i as int),
        decreases HOP_SIZE - i,
    {
        match buf.pop_front() {
            Some(s) => {
                hop.push(s);
            },
            None => {
                hop.push(zero);
            },
        }
        i += 1;
        assert(buf@ =~= without(start, i as nat));
        assert(hop@ =~= whole.take(i as int));
    }
    assert(whole.take(i as int) =~= whole);
    hop
}

/// A place where the model may be found; one that starts with a dot lies in the user's home.
pub struct ModelDir {
    pub under_home: bool,
    pub path: String,
}

/// The places where the model is looked for, in order. The user's own come first, and are left out
/// where the home is not known.
pub fn model_dirs(home_known: bool) -> (dirs: Vec<ModelDir>)
    ensures
        home_known ==> {
            &&& dirs@.len() == 5
            &&& dirs@[0].under_home && dirs@[0].path@ == ".local/share/upalla"@
            &&& !dirs@[1].under_home && dirs@[1].path@ == "/usr/share/upalla"@
            &&& !dirs@[2].under_home && dirs@[2].path@ == "/usr/local/share/upalla"@
            &&& dirs@[3].under_home && dirs@[3].path@ == ".local/share/upalla"@
            &&& !dirs@[4].under_home && dirs@[4].path@ == "upalla/models"@
        },
        !home_known ==> {
            &&& dirs@.len() == 3
            &&& !dirs@[0].under_home && dirs@[0].path@ == "/usr/share/upalla"@
            &&& !dirs@[1].under_home && dirs@[1].path@ == "/usr/local/share/upalla"@
            &&& !dirs@[2].under_home && dirs@[2].path@ == "upalla/models"@
        },
{
    let mut dirs: Vec<ModelDir> = Vec::new();
    if home_known {
        dirs.push(ModelDir { under_home: true, path: ".local/share/upalla".to_owned() });
    }
    dirs.push(ModelDir { under_home: false, path: "/usr/share/upalla".to_owned() });
    dirs.push(ModelDir { under_home: false, path: "/usr/local/share/upalla".to_owned() });
    if home_known {
        dirs.push(ModelDir { under_home: true, path: ".local/share/upalla".to_owned() });
    }
    dirs.push(ModelDir { under_home: false, path: "upalla/models".to_owned() });
    dirs
}

/// Whether a directory holds the model: all three of its files are there.
pub fn has_model(enc: bool, erb_dec: bool, df_dec: bool) -> (has: bool)
    ensures
        has == (enc && erb_dec && df_dec),
{
    enc && erb_dec && df_dec
}

/// How the plugin denoises.
#[derive(Clone, Copy, Debug, PartialEq, Eq, Structural)]
pub enum Backend {
    /// With a worker thread.
    Worker,
    /// On the audio thread.
    Cpu,
    /// Not at all, for want of a model: audio passes through.
    PassThrough,
    /// Not at all, though there is a model: nothing is given out.
    Silent,
}

/// Chooses how to denoise, given whether the model was found, and whether it could be loaded for a
/// worker or, where that failed, for the audio thread.
pub fn choose_backend(found: bool, worker_loads: bool, cpu_loads: bool) -> (backend: Backend)
    ensures
        backend == (if found && worker_loads {
            Backend::Worker
        } else if found && cpu_loads {
            Backend::Cpu
        } else if found {
            Backend::Silent
        } else {
            Backend::PassThrough
        }),
{
    if found && worker_loads {
        Backend::Worker
    } else if found && cpu_loads {
        Backend::Cpu
    } else if found {
        Backend::Silent
    } else {
        Backend::PassThrough
    }
}

/// What the deep filter reads of channel `ch`.
pub open spec fn channel_view<T>(plugin: UpallaPlugin<T>, ch: int) -> FilterView<T> {
    FilterView {
        reals: Seq::new(
            plugin.spec_real_history@.len(),
            |t: int| plugin.spec_real_history@[t]@[ch]@,
        ),
        imags: Seq::new(
            plugin.spec_imag_history@.len(),
            |t: int| plugin.spec_imag_history@[t]@[ch]@,
        ),
        coefs: plugin.last_coefs->Some_0@,
        num_frames: plugin.last_num_frames as int,
    }
}

/// A result over `frames` frames, with `coefs` coefficients, can be applied to `kept` spectra: it
/// covers no more of them than there are, and holds the coefficients of every tap that is read.
pub open spec fn result_fits(coefs: nat, frames: int, kept: nat) -> bool {
    kept > 0 ==> {
        &&& frames <= kept
        &&& forall|t: int, n: int|
            0 <= t < frames && 0 <= n < DF_ORDER && tap_in_range(t, n, frames)
                ==> #[trigger] coef_index(n, t, DF_BINS - 1, frames) + 1 < coefs
    }
}

/// `audio` is what `inverse`, with its state going from `from` to `to`, makes of frame `t` of channel
/// `ch` once it went through the deep filter.
pub open spec fn frame_restored<
    T: Copy + Add<Output = T> + Mul<Output = T> + Sub<Output = T>,
    S,
    F: Fn(S, &Vec<T>, &Vec<T>) -> (S, Vec<T>),
>(
    plugin: UpallaPlugin<T>,
    inverse: F,
    from: S,
    to: S,
    t: int,
    ch: int,
    zero: T,
    audio: Seq<T>,
) -> bool {
    exists|re: Vec<T>, im: Vec<T>, out: Vec<T>|
        {
            &&& #[trigger] inverse.ensures((from, &re, &im), (to, out))
            &&& out@ == audio
            &&& re@.len() == FREQ_BINS
            &&& im@.len() == FREQ_BINS
            &&& forall|f: int|
                0 <= f < FREQ_BINS ==> #[trigger] bin_filtered(
                    channel_view(plugin, ch),
                    t,
                    f,
                    zero,
                    re@[f],
                    im@[f],
                )
        }
}

/// The audio of channel `ch` in the first `n` of some frames, one after the other.
pub open spec fn joined<T>(frames: Seq<Seq<Seq<T>>>, ch: int, n: int) -> Seq<T>
    decreases n,
{
    if n <= 0 {
        Seq::empty()
    } else {
        joined(frames, ch, n - 1) + frames[n - 1][ch]
    }
}

/// Later frames do not change what earlier ones join to.
proof fn lemma_joined_prefix<T>(a: Seq<Seq<Seq<T>>>, b: Seq<Seq<Seq<T>>>, ch: int, n: int)
    requires
        n <= a.len(),
        n <= b.len(),
        forall|t: int| 0 <= t < n ==> #[trigger] a[t] == b[t],
    ensures
        joined(a, ch, n) == joined(b, ch, n),
    decreases n,
{
    if n > 0 {
        lemma_joined_prefix(a, b, ch, n - 1);
        assert(a[n - 1] == b[n - 1]);
    }
}

impl<T: Copy + Add<Output = T> + Mul<Output = T> + Sub<Output = T>> UpallaPlugin<T> {
    /// The last result can be applied: it fits the spectra that are kept.
    pub open spec fn can_apply(&self) -> bool {
        self.last_mask is Some && self.last_coefs is Some ==> result_fits(
            self.last_coefs->Some_0@.len(),
            self.last_num_frames as int,
            self.spec_real_history@.len(),
        )
    }

    /// Runs one frame of a channel through the deep filter and `inverse`.
    fn restore_frame<S, F: Fn(S, &Vec<T>, &Vec<T>) -> (S, Vec<T>)>(
        &self,
        inverse: &F,
        state: S,
        t: usize,
        ch: usize,
        zero: T,
    ) -> (out: (S, Vec<T>))
        requires
            self.wf(),
            self.can_apply(),
            ch < self.channels,
            self.last_mask is Some,
            self.last_coefs is Some,
            t < self.last_num_frames,
            t < self.spec_real_history@.len(),
            adds::<T>(),
            multiplies::<T>(),
            subtracts::<T>(),
            forall|s: S, re: &Vec<T>, im: &Vec<T>| #[trigger] inverse.requires((s, re, im)),
        ensures
            frame_restored(*self, *inverse, state, out.0, t as int, ch as int, zero, out.1@),
    {
        let (reals, imags) = self.channel_history(ch);
        let mut out_real = repeat(zero, FREQ_BINS);
        let mut out_imag = repeat(zero, FREQ_BINS);
        let ghost view = channel_view(*self, ch as int);
        match &self.last_coefs {
            Some(coefs) => {
                let n: usize = self.last_num_frames;
                proof {
                    let fv = filter_view(reals@, imags@, coefs@, n as int);
                    assert(fv.reals =~= view.reals);
                    assert(fv.imags =~= view.imags);
                    assert forall|s: int| 0 <= s < reals@.len() implies (#[trigger] reals@[s])@.len()
                        == FREQ_BINS by {
                        assert(spectrum_ok(self.spec_real_history@[s], self.channels));
                        assert(self.spec_real_history@[s]@[ch as int]@.len() == FREQ_BINS);
                    }
                    assert forall|s: int| 0 <= s < imags@.len() implies (#[trigger] imags@[s])@.len()
                        == FREQ_BINS by {
                        assert(spectrum_ok(self.spec_imag_history@[s], self.channels));
                        assert(self.spec_imag_history@[s]@[ch as int]@.len() == FREQ_BINS);
                    }
                }
                apply_deep_filter(
                    &reals,
                    &imags,
                    coefs,
                    n,
                    t,
                    zero,
                    &mut out_real,
                    &mut out_imag,
                );
            },
            None => {},
        }
        let ghost from = state;
        let out = inverse(state, &out_real, &out_imag);
        assert(inverse.ensures((from, &out_real, &out_imag), (out.0, out.1)));
        out
    }

    /// Applies the last result to the kept spectra: every frame of every channel goes through the deep
    /// filter and `inverse`, and what comes out is queued for delivery. Each channel has a state of
    /// `inverse` of its own, which goes from frame to frame.
    pub fn try_apply_results<S, F: Fn(S, &Vec<T>, &Vec<T>) -> (S, Vec<T>)>(
        &mut self,
        inverse: &F,
        states: &mut Vec<S>,
        num_channels: usize,
        zero: T,
    )
        requires
            old(self).wf(),
            old(self).can_apply(),
            num_channels <= old(self).channels,
            num_channels <= old(states)@.len(),
            adds::<T>(),
            multiplies::<T>(),
            subtracts::<T>(),
            forall|s: S, re: &Vec<T>, im: &Vec<T>| #[trigger] inverse.requires((s, re, im)),
        ensures
            final(self).wf(),
            final(self).channels == old(self).channels,
            final(self).input_buf == old(self).input_buf,
            final(self).same_spectra(old(self)),
            final(self).vad_grace_remaining == old(self).vad_grace_remaining,
            final(self).output_buf@.len() == old(self).output_buf@.len(),
            exists|chain: Seq<Seq<S>>, frames: Seq<Seq<Seq<T>>>|
                {
                    &&& #[trigger] all_restored(
                        *old(self),
                        *inverse,
                        chain,
                        frames,
                        old(self).applied(),
                        num_channels,
                        zero,
                    )
                    &&& chain[0] == old(states)@
                    &&& chain[old(self).applied() as int] == final(states)@
                    &&& forall|c: int|
                        0 <= c < num_channels ==> (#[trigger] final(self).output_buf@[c])@ == old(
                            self).output_buf@[c]@ + joined(frames, c, old(self).applied() as int)
                    &&& forall|c: int|
                        num_channels <= c < old(self).output_buf@.len() ==> #[trigger] final(
                            self).output_buf@[c] == old(self).output_buf@[c]
                },
    {
        let n: usize = self.frames_to_apply();
        let ghost start = self.output_buf@;
        let ghost mut frames: Seq<Seq<Seq<T>>> = Seq::empty();
        let ghost mut chain: Seq<Seq<S>> = seq![states@];
        let mut t: usize = 0;
        proof {
            assert forall|c: int| 0 <= c < num_channels implies (#[trigger] self.output_buf@[c])@
                == start[c]@ + joined(frames, c, 0) by {
                assert(start[c]@ + joined(frames, c, 0) =~= start[c]@);
            }
        }
        while t < n
            invariant
                t <= n,
                n <= old(self).spec_real_history@.len(),
                n > 0 ==> old(self).last_mask is Some && old(self).last_coefs is Some && n <= old(
                    self).last_num_frames,
                self.wf(),
                self.can_apply(),
                num_channels <= self.channels,
                self.channels == old(self).channels,
                self.input_buf == old(self).input_buf,
                self.same_spectra(old(self)),
                self.vad_grace_remaining == old(self).vad_grace_remaining,
                adds::<T>(),
                multiplies::<T>(),
                subtracts::<T>(),
                forall|s: S, re: &Vec<T>, im: &Vec<T>| #[trigger] inverse.requires((s, re, im)),
                start == old(self).output_buf@,
                self.output_buf@.len() == start.len(),
                num_channels <= states@.len(),
                chain.len() == t + 1,
                chain[0] == old(states)@,
                chain[t as int] == states@,
                all_restored(*old(self), *inverse, chain, frames, t as nat, num_channels, zero),
                forall|c: int|
                    0 <= c < num_channels ==> (#[trigger] self.output_buf@[c])@ == start[c]@
                        + joined(frames, c, t as int),
                forall|c: int|
                    num_channels <= c < start.len() ==> #[trigger] self.output_buf@[c] == start[c],
            decreases n - t,
        {
            let ghost mut frame: Seq<Seq<T>> = Seq::empty();
            let ghost row = states@;
            let mut ch: usize = 0;
            while ch < num_channels
                invariant
                    ch <= num_channels,
                    t < n <= old(self).spec_real_history@.len(),
                    old(self).last_mask is Some && old(self).last_coefs is Some && n <= old(
                        self).last_num_frames,
                    self.wf(),
                    self.can_apply(),
                    num_channels <= self.channels,
                    self.channels == old(self).channels,
                    self.input_buf == old(self).input_buf,
                    self.same_spectra(old(self)),
                    self.vad_grace_remaining == old(self).vad_grace_remaining,
                    adds::<T>(),
                    multiplies::<T>(),
                    subtracts::<T>(),
                    forall|s: S, re: &Vec<T>, im: &Vec<T>| #[trigger]
                        inverse.requires((s, re, im)),
                    self.output_buf@.len() == start.len(),
                    num_channels <= states@.len(),
                    states@.len() == row.len(),
                    forall|c: int| ch <= c < row.len() ==> #[trigger] states@[c] == row[c],
                    frame.len() == ch,
                    forall|c: int|
                        0 <= c < ch ==> frame_restored(
                            *old(self),
                            *inverse,
                            row[c],
                            states@[c],
                            t as int,
                            c,
                            zero,
                            #[trigger] frame[c],
                        ),
                    forall|c: int|
                        0 <= c < ch ==> (#[trigger] self.output_buf@[c])@ == start[c]@ + joined(
                            frames,
                            c,
                            t as int,
                        ) + frame[c],
                    forall|c: int|
                        ch <= c < num_channels ==> (#[trigger] self.output_buf@[c])@ == start[c]@
                            + joined(frames, c, t as int),
                    forall|c: int|
                        num_channels <= c < start.len() ==> #[trigger] self.output_buf@[c]
                            == start[c],
                decreases num_channels - ch,
            {
                let ghost held = states@;
                let state = states.remove(ch);
                assert(state == row[ch as int]);
                let (state, audio) = self.restore_frame(inverse, state, t, ch, zero);
                let ghost before = self.output_buf@;
                proof {
                    assert(channel_view(*self, ch as int) == channel_view(*old(self), ch as int));
                    assert(frame_restored(
                        *old(self),
                        *inverse,
                        row[ch as int],
                        state,
                        t as int,
                        ch as int,
                        zero,
                        audio@,
                    ));
                }
                let ghost given = state;
                states.insert(ch, state);
                assert(states@ =~= held.update(ch as int, given));
                self.push_output(ch, &audio);
                proof {
                    let longer = frame.push(audio@);
                    assert forall|c: int| 0 <= c < ch + 1 implies (#[trigger] self.output_buf@[c])@
                        == start[c]@ + joined(frames, c, t as int) + longer[c] by {
                        if c < ch {
                            assert(self.output_buf@[c] == before[c]);
                        }
                    }
                    assert forall|c: int| 0 <= c < ch + 1 implies frame_restored(
                        *old(self),
                        *inverse,
                        row[c],
                        states@[c],
                        t as int,
                        c,
                        zero,
                        #[trigger] longer[c],
                    ) by {
                        if c < ch {
                            assert(longer[c] == frame[c]);
                            assert(states@[c] == held[c]);
                        }
                    }
                    frame = longer;
                }
                ch += 1;
            }
            proof {
                let longer = frames.push(frame);
                let linked = chain.push(states@);
                assert forall|c: int| 0 <= c < num_channels implies (
                #[trigger] self.output_buf@[c])@ == start[c]@ + joined(longer, c, t + 1) by {
                    lemma_joined_prefix(frames, longer, c, t as int);
                    assert(start[c]@ + joined(frames, c, t as int) + frame[c] =~= start[c]@
                        + joined(longer, c, t + 1));
                }
                assert forall|s: int, c: int|
                    0 <= s < t + 1 && 0 <= c < num_channels implies frame_restored(
                    *old(self),
                    *inverse,
                    linked[s][c],
                    linked[s + 1][c],
                    s,
                    c,
                    zero,
                    #[trigger] longer[s][c],
                ) by {
                    if s < t {
                        assert(longer[s] == frames[s]);
                        assert(frame_restored(
                            *old(self),
                            *inverse,
                            chain[s][c],
                            chain[s + 1][c],
                            s,
                            c,
                            zero,
                            frames[s][c],
                        ));
                    } else {
                        assert(longer[s][c] == frame[c]);
                    }
                }
                assert forall|s: int, c: int|
                    0 <= s <= t + 1 && num_channels <= c < linked[0].len() implies #[trigger]
                linked[s][c] == linked[0][c] by {
                    if s <= t {
                        assert(chain[s][c] == chain[0][c]);
                    } else {
                        assert(states@[c] == row[c]);
                        assert(chain[t as int][c] == chain[0][c]);
                    }
                }
                frames = longer;
                chain = linked;
            }
            t += 1;
        }
        assert(all_restored(*old(self), *inverse, chain, frames, n as nat, num_channels, zero));
    }
}

/// `frames` holds, frame by frame and channel by channel, the audio of the first `n` kept spectra, and
/// `chain` the states that `inverse` goes through: those of the other channels stay.
pub open spec fn all_restored<
    T: Copy + Add<Output = T> + Mul<Output = T> + Sub<Output = T>,
    S,
    F: Fn(S, &Vec<T>, &Vec<T>) -> (S, Vec<T>),
>(
    plugin: UpallaPlugin<T>,
    inverse: F,
    chain: Seq<Seq<S>>,
    frames: Seq<Seq<Seq<T>>>,
    n: nat,
    num_channels: usize,
    zero: T,
) -> bool {
    &&& frames.len() == n
    &&& chain.len() == n + 1
    &&& forall|t: int| 0 <= t <= n ==> (#[trigger] chain[t]).len() == chain[0].len()
    &&& forall|t: int, c: int|
        0 <= t < n && 0 <= c < num_channels ==> frame_restored(
            plugin,
            inverse,
            chain[t][c],
            chain[t + 1][c],
            t,
            c,
            zero,
            #[trigger] frames[t][c],
        )
    &&& forall|t: int, c: int|
        0 <= t <= n && num_channels <= c < chain[0].len() ==> #[trigger] chain[t][c]
            == chain[0][c]
}

/// The kept spectra after more of them.
pub open spec fn kept_all<S>(history: Seq<S>, more: Seq<S>) -> Seq<S>
    decreases more.len(),
{
    if more.len() == 0 {
        history
    } else {
        kept(kept_all(history, more.drop_last()), more.last())
    }
}

/// Of everything that was ever analysed, the most recent spectra are kept, up to [`HISTORY_CAP`].
pub proof fn lemma_most_recent_kept<S>(history: Seq<S>, more: Seq<S>)
    requires
        history.len() <= HISTORY_CAP,
    ensures
        ({
            let all = history + more;
            let n = if all.len() <= HISTORY_CAP {
                all.len() as int
            } else {
                HISTORY_CAP as int
            };
            kept_all(history, more) == all.skip(all.len() - n)
        }),
    decreases more.len(),
{
    if more.len() == 0 {
        assert((history + more).skip(0) =~= history);
    } else {
        let before = more.drop_last();
        lemma_most_recent_kept(history, before);
        let all = history + more;
        assert((history + before).push(more.last()) =~= all);
        if all.len() <= HISTORY_CAP {
            assert(kept_all(history, more) =~= all.skip(0));
        } else {
            assert(kept_all(history, more) =~= all.skip(all.len() - HISTORY_CAP));
        }
    }
}

/// `reals` and `imags` are what `forward` makes of a hop of each channel, with its states going from
/// `from` to `to`: those of the other channels stay.
pub open spec fn hop_analysed<T, S, F: Fn(S, &Vec<T>) -> (S, (Vec<T>, Vec<T>))>(
    forward: F,
    from: Seq<S>,
    to: Seq<S>,
    hop: Seq<Seq<T>>,
    reals: Vec<Vec<T>>,
    imags: Vec<Vec<T>>,
) -> bool {
    &&& reals@.len() == hop.len()
    &&& imags@.len() == hop.len()
    &&& to.len() == from.len()
    &&& forall|c: int|
        0 <= c < hop.len() ==> row_analysed(
            forward,
            from[c],
            to[c],
            hop[c],
            #[trigger] reals@[c],
            imags@[c],
        )
    &&& forall|c: int| hop.len() <= c < from.len() ==> #[trigger] to[c] == from[c]
}

/// `re` and `im` are what `forward` makes of a hop of a channel, with its state going from `from` to
/// `to`.
pub open spec fn row_analysed<T, S, F: Fn(S, &Vec<T>) -> (S, (Vec<T>, Vec<T>))>(
    forward: F,
    from: S,
    to: S,
    hop: Seq<T>,
    re: Vec<T>,
    im: Vec<T>,
) -> bool {
    exists|row: Vec<T>| row@ == hop && #[trigger] forward.ensures((from, &row), (to, (re, im)))
}

impl<T: Copy> UpallaPlugin<T> {
    /// Analyses one hop of every channel, if the first channel has one, and keeps the spectrum. Each
    /// channel has a state of `forward` of its own.
    pub fn analyse_hop<S, F: Fn(S, &Vec<T>) -> (S, (Vec<T>, Vec<T>))>(
        &mut self,
        forward: &F,
        states: &mut Vec<S>,
        zero: T,
    ) -> (analysed: bool)
        requires
            old(self).wf(),
            old(self).channels > 0,
            old(self).channels <= old(states)@.len(),
            forall|s: S, row: &Vec<T>| #[trigger] forward.requires((s, row)),
            forall|s: S, row: &Vec<T>, out: (S, (Vec<T>, Vec<T>))| #[trigger]
                forward.ensures((s, row), out) ==> out.1.0@.len() == FREQ_BINS && out.1.1@.len()
                    == FREQ_BINS,
        ensures
            final(self).wf(),
            analysed == (old(self).input_buf@[0]@.len() >= HOP_SIZE),
            !analysed ==> *final(self) == *old(self) && *final(states) == *old(states),
            final(states)@.len() == old(states)@.len(),
            final(self).channels == old(self).channels,
            final(self).output_buf == old(self).output_buf,
            final(self).input_buf@.len() == old(self).input_buf@.len(),
            final(self).pending_task == old(self).pending_task,
            final(self).vad_grace_remaining == old(self).vad_grace_remaining,
            final(self).same_results(old(self)),
            analysed ==> {
                &&& forall|c: int|
                    0 <= c < old(self).channels ==> (#[trigger] final(self).input_buf@[c])@
                        == without(old(self).input_buf@[c]@, HOP_SIZE as nat)
                &&& forall|c: int|
                    old(self).channels <= c < old(self).input_buf@.len() ==> #[trigger] final(
                        self).input_buf@[c] == old(self).input_buf@[c]
                &&& final(self).last_sent_frame == sent_after(
                    old(self).spec_real_history@.len(),
                    old(self).last_sent_frame,
                )
                &&& exists|re: Vec<Vec<T>>, im: Vec<Vec<T>>|
                    {
                        &&& #[trigger] hop_analysed(
                            *forward,
                            old(states)@,
                            final(states)@,
                            hops_of(old(self).input_buf@, old(self).channels as nat, zero),
                            re,
                            im,
                        )
                        &&& final(self).spec_real_history@ == kept(
                            old(self).spec_real_history@,
                            re,
                        )
                        &&& final(self).spec_imag_history@ == kept(
                            old(self).spec_imag_history@,
                            im,
                        )
                    }
            },
    {
        let hop = match self.next_hop(zero) {
            Some(hop) => hop,
            None => return false,
        };
        let ghost hops = hops_of(old(self).input_buf@, old(self).channels as nat, zero);
        let ghost from = states@;
        let mut reals: Vec<Vec<T>> = Vec::new();
        let mut imags: Vec<Vec<T>> = Vec::new();
        let mut ch: usize = 0;
        while ch < hop.len()
            invariant
                ch <= hop@.len() == hops.len(),
                forall|c: int| 0 <= c < hops.len() ==> (#[trigger] hop@[c])@ == hops[c],
                forall|s: S, row: &Vec<T>| #[trigger] forward.requires((s, row)),
                forall|s: S, row: &Vec<T>, out: (S, (Vec<T>, Vec<T>))| #[trigger]
                    forward.ensures((s, row), out) ==> out.1.0@.len() == FREQ_BINS
                        && out.1.1@.len() == FREQ_BINS,
                hops.len() <= from.len(),
                states@.len() == from.len(),
                forall|c: int| ch <= c < from.len() ==> #[trigger] states@[c] == from[c],
                reals@.len() == ch,
                imags@.len() == ch,
                forall|c: int|
                    0 <= c < ch ==> row_analysed(
                        *forward,
                        from[c],
                        states@[c],
                        hops[c],
                        #[trigger] reals@[c],
                        imags@[c],
                    ),
                forall|c: int| 0 <= c < ch ==> (#[trigger] reals@[c])@.len() == FREQ_BINS,
                forall|c: int| 0 <= c < ch ==> (#[trigger] imags@[c])@.len() == FREQ_BINS,
            decreases hop@.len() - ch,
        {
            let ghost held = states@;
            let state = states.remove(ch);
            let ghost given = state;
            assert(given == from[ch as int]);
            let out = forward(state, &hop[ch]);
            let ghost row = hop@[ch as int];
            assert(forward.ensures((given, &row), out));
            let (state, (re, im)) = out;
            let ghost taken = state;
            assert(forward.ensures((given, &row), (taken, (re, im))));
            assert(row_analysed(*forward, given, taken, hops[ch as int], re, im));
            states.insert(ch, state);
            assert(states@ =~= held.update(ch as int, taken));
            let ghost r0 = reals@;
            let ghost i0 = imags@;
            reals.push(re);
            imags.push(im);
            assert forall|c: int| 0 <= c < ch + 1 implies row_analysed(
                *forward,
                from[c],
                states@[c],
                hops[c],
                #[trigger] reals@[c],
                imags@[c],
            ) by {
                if c < ch {
                    assert(states@[c] == held[c]);
                    assert(row_analysed(*forward, from[c], held[c], hops[c], r0[c], i0[c]));
                }
            }
            ch += 1;
        }
        assert(hop_analysed(*forward, from, states@, hops, reals, imags));
        self.push_spectrum(reals, imags);
        true
    }

    /// Analyses every whole hop of the first channel, together with the other channels, and keeps the
    /// spectra. Returns the number of hops.
    pub fn analyse<S, F: Fn(S, &Vec<T>) -> (S, (Vec<T>, Vec<T>))>(
        &mut self,
        forward: &F,
        states: &mut Vec<S>,
        zero: T,
    ) -> (hops: usize)
        requires
            old(self).wf(),
            old(self).channels > 0,
            old(self).channels <= old(states)@.len(),
            forall|s: S, row: &Vec<T>| #[trigger] forward.requires((s, row)),
            forall|s: S, row: &Vec<T>, out: (S, (Vec<T>, Vec<T>))| #[trigger]
                forward.ensures((s, row), out) ==> out.1.0@.len() == FREQ_BINS && out.1.1@.len()
                    == FREQ_BINS,
        ensures
            final(self).wf(),
            final(self).channels == old(self).channels,
            final(self).output_buf == old(self).output_buf,
            final(self).pending_task == old(self).pending_task,
            final(self).vad_grace_remaining == old(self).vad_grace_remaining,
            final(self).same_results(old(self)),
            hops == old(self).input_buf@[0]@.len() / HOP_SIZE as nat,
            final(states)@.len() == old(states)@.len(),
            hops_taken(*old(self), *final(self), hops as nat),
            all_analysed(
                *old(self),
                *final(self),
                *forward,
                old(states)@,
                final(states)@,
                hops as nat,
                zero,
            ),
    {
        let ghost first = self.input_buf@[0]@;
        let ghost mut reals: Seq<Vec<Vec<T>>> = Seq::empty();
        let ghost mut imags: Seq<Vec<Vec<T>>> = Seq::empty();
        let ghost mut chain: Seq<Seq<S>> = seq![states@];
        let mut hops: usize = 0;
        proof {
            assert forall|c: int| 0 <= c < self.channels implies (#[trigger] self.input_buf@[c])@
                == without(old(self).input_buf@[c]@, 0) by {
                assert(without(old(self).input_buf@[c]@, 0) =~= old(self).input_buf@[c]@);
            }
        }
        while self.input_buf[0].len() >= HOP_SIZE
            invariant
                self.wf(),
                self.channels == old(self).channels,
                self.channels > 0,
                self.output_buf == old(self).output_buf,
                self.pending_task == old(self).pending_task,
                self.vad_grace_remaining == old(self).vad_grace_remaining,
                self.same_results(old(self)),
                forall|s: S, row: &Vec<T>| #[trigger] forward.requires((s, row)),
                forall|s: S, row: &Vec<T>, out: (S, (Vec<T>, Vec<T>))| #[trigger]
                    forward.ensures((s, row), out) ==> out.1.0@.len() == FREQ_BINS
                        && out.1.1@.len() == FREQ_BINS,
                first == old(self).input_buf@[0]@,
                hops * HOP_SIZE <= first.len(),
                hops_taken(*old(self), *self, hops as nat),
                old(self).wf(),
                self.channels <= states@.len(),
                states@.len() == old(states)@.len(),
                chain.len() == hops + 1,
                chain[0] == old(states)@,
                chain[hops as int] == states@,
                reals.len() == hops,
                imags.len() == hops,
                hops_analysed(
                    *forward,
                    old(self).input_buf@,
                    old(self).channels as nat,
                    chain,
                    reals,
                    imags,
                    zero,
                ),
                self.spec_real_history@ == kept_all(old(self).spec_real_history@, reals),
                self.spec_imag_history@ == kept_all(old(self).spec_imag_history@, imags),
                self.last_sent_frame == sent_after_all(
                    old(self).spec_real_history@.len(),
                    old(self).last_sent_frame as nat,
                    hops as nat,
                ),
            decreases self.input_buf@[0]@.len(),
        {
            let ghost before = *self;
            let ghost from = states@;
            let analysed = self.analyse_hop(forward, states, zero);
            proof {
                let n = old(self).channels as nat;
                let hop = hops_of(before.input_buf@, n, zero);
                let (re, im) = choose|re: Vec<Vec<T>>, im: Vec<Vec<T>>|
                    {
                        &&& #[trigger] hop_analysed(*forward, from, states@, hop, re, im)
                        &&& self.spec_real_history@ == kept(before.spec_real_history@, re)
                        &&& self.spec_imag_history@ == kept(before.spec_imag_history@, im)
                    };
                let later = hops_from(old(self).input_buf@, n, hops as int, zero);
                assert forall|c: int| 0 <= c < n implies #[trigger] hop[c] == later[c] by {
                    assert(before.input_buf@[c]@ == without(
                        old(self).input_buf@[c]@,
                        (hops * HOP_SIZE) as nat,
                    ));
                }
                assert(hop =~= later);
                let more_reals = reals.push(re);
                let more_imags = imags.push(im);
                let linked = chain.push(states@);
                assert forall|k: int| 0 <= k < more_reals.len() implies hop_analysed(
                    *forward,
                    linked[k],
                    linked[k + 1],
                    hops_from(old(self).input_buf@, n, k, zero),
                    #[trigger] more_reals[k],
                    more_imags[k],
                ) by {
                    if k < hops {
                        assert(more_reals[k] == reals[k]);
                        assert(more_imags[k] == imags[k]);
                        assert(linked[k] == chain[k]);
                        assert(linked[k + 1] == chain[k + 1]);
                    }
                }
                assert(more_reals.drop_last() =~= reals);
                assert(more_imags.drop_last() =~= imags);
                lemma_most_recent_kept(old(self).spec_real_history@, reals);
                reals = more_reals;
                imags = more_imags;
                chain = linked;
                assert forall|c: int| 0 <= c < self.channels implies (
                #[trigger] self.input_buf@[c])@ == without(
                    old(self).input_buf@[c]@,
                    ((hops + 1) * HOP_SIZE) as nat,
                ) by {
                    assert(before.input_buf@[c]@ == without(
                        old(self).input_buf@[c]@,
                        (hops * HOP_SIZE) as nat,
                    ));
                    assert(self.input_buf@[c]@ =~= without(
                        old(self).input_buf@[c]@,
                        ((hops + 1) * HOP_SIZE) as nat,
                    ));
                }
                assert(first.len() <= usize::MAX) by {
                    assert(old(self).input_buf@[0]@.len() == old(self).input_buf@[0].len());
                }
            }
            hops += 1;
        }
        assert(hops_analysed(
            *forward,
            old(self).input_buf@,
            old(self).channels as nat,
            chain,
            reals,
            imags,
            zero,
        ));
        hops
    }

    /// Denoises on the audio thread: every whole hop of the first channel goes through `denoise`, and
    /// what it gives is queued on every channel. The state of `denoise` goes from hop to hop. Returns
    /// it, and the number of hops.
    pub fn process_cpu_fallback<S, F: Fn(S, &Vec<T>) -> (S, Vec<T>)>(
        &mut self,
        denoise: &F,
        state: S,
        zero: T,
    ) -> (out: (S, usize))
        requires
            old(self).wf(),
            old(self).channels > 0,
            forall|s: S, row: &Vec<T>| #[trigger] denoise.requires((s, row)),
        ensures
            final(self).wf(),
            final(self).channels == old(self).channels,
            final(self).same_spectra(old(self)),
            final(self).vad_grace_remaining == old(self).vad_grace_remaining,
            out.1 == old(self).input_buf@[0]@.len() / HOP_SIZE as nat,
            hops_taken(*old(self), *final(self), out.1 as nat),
            all_denoised(*old(self), *final(self), *denoise, state, out.0, out.1 as nat),
    {
        let ghost first = self.input_buf@[0]@;
        let ghost start = self.output_buf@;
        let ghost mut outs: Seq<Seq<T>> = Seq::empty();
        let ghost mut states: Seq<S> = seq![state];
        let mut current = state;
        let mut hops: usize = 0;
        proof {
            assert forall|c: int| 0 <= c < self.channels implies (#[trigger] self.output_buf@[c])@
                == start[c]@ + concat(outs) by {
                assert(start[c]@ + concat(outs) =~= start[c]@);
            }
            assert forall|c: int| 0 <= c < self.channels implies (#[trigger] self.input_buf@[c])@
                == without(old(self).input_buf@[c]@, 0) by {
                assert(without(old(self).input_buf@[c]@, 0) =~= old(self).input_buf@[c]@);
            }
        }
        while self.input_buf[0].len() >= HOP_SIZE
            invariant
                self.wf(),
                self.channels == old(self).channels,
                self.channels > 0,
                self.same_spectra(old(self)),
                self.vad_grace_remaining == old(self).vad_grace_remaining,
                forall|s: S, row: &Vec<T>| #[trigger] denoise.requires((s, row)),
                first == old(self).input_buf@[0]@,
                start == old(self).output_buf@,
                self.input_buf@.len() == old(self).input_buf@.len(),
                self.output_buf@.len() == start.len(),
                hops * HOP_SIZE <= first.len(),
                forall|c: int|
                    0 <= c < self.channels ==> (#[trigger] self.input_buf@[c])@ == without(
                        old(self).input_buf@[c]@,
                        (hops * HOP_SIZE) as nat,
                    ),
                forall|c: int|
                    self.channels <= c < old(self).input_buf@.len() ==> #[trigger] self.input_buf@[c]
                        == old(self).input_buf@[c],
                forall|c: int|
                    self.channels <= c < start.len() ==> #[trigger] self.output_buf@[c] == start[c],
                outs.len() == hops,
                states.len() == hops + 1,
                states[0] == state,
                states[hops as int] == current,
                hops_denoised(first, *denoise, states, outs),
                forall|c: int|
                    0 <= c < self.channels ==> (#[trigger] self.output_buf@[c])@ == start[c]@
                        + concat(outs),
            decreases self.input_buf@[0]@.len(),
        {
            let ghost before = self.input_buf@[0]@;
            let ghost waiting = self.input_buf@;
            if let Some(hop) = self.next_hop(zero) {
                let ghost given = current;
                let (next, out) = denoise(current, &hop[0]);
                current = next;
                proof {
                    let row = hop@[0];
                    assert(row@ == hop_of(before, zero));
                    assert(row@ =~= first.subrange(hops * HOP_SIZE, hops * HOP_SIZE + HOP_SIZE));
                    assert(denoise.ensures((given, &row), (current, out)));
                    let longer = outs.push(out@);
                    let linked = states.push(current);
                    assert forall|k: int| 0 <= k < longer.len() implies hop_denoised(
                        first,
                        *denoise,
                        linked[k],
                        linked[k + 1],
                        k,
                        #[trigger] longer[k],
                    ) by {
                        if k < outs.len() {
                            assert(hop_denoised(
                                first,
                                *denoise,
                                states[k],
                                states[k + 1],
                                k,
                                outs[k],
                            ));
                        }
                    }
                    states = linked;
                    assert(longer.drop_last() =~= outs);
                    assert forall|c: int| 0 <= c < self.channels implies (
                    #[trigger] self.input_buf@[c])@ == without(
                        old(self).input_buf@[c]@,
                        ((hops + 1) * HOP_SIZE) as nat,
                    ) by {
                        assert(waiting[c]@ == without(
                            old(self).input_buf@[c]@,
                            (hops * HOP_SIZE) as nat,
                        ));
                        assert(self.input_buf@[c]@ =~= without(
                            old(self).input_buf@[c]@,
                            ((hops + 1) * HOP_SIZE) as nat,
                        ));
                    }
                    assert(first.len() <= usize::MAX) by {
                        assert(old(self).input_buf@[0]@.len() == old(self).input_buf@[0].len());
                    }
                }
                let ghost queued = self.output_buf@;
                let ghost taken = self.input_buf@;
                let mut ch: usize = 0;
                while ch < self.channels
                    invariant
                        ch <= self.channels,
                        self.wf(),
                        self.channels == old(self).channels,
                        self.same_spectra(old(self)),
                        self.vad_grace_remaining == old(self).vad_grace_remaining,
                        self.input_buf@.len() == old(self).input_buf@.len(),
                        self.output_buf@.len() == start.len(),
                        self.input_buf@ == taken,
                        queued.len() == start.len(),
                        forall|c: int|
                            0 <= c < ch ==> (#[trigger] self.output_buf@[c])@ == queued[c]@
                                + out@,
                        forall|c: int|
                            ch <= c < start.len() ==> #[trigger] self.output_buf@[c] == queued[c],
                    decreases self.channels - ch,
                {
                    let ghost snapshot = self.output_buf@;
                    self.push_output(ch, &out);
                    assert forall|c: int| 0 <= c < ch + 1 implies (#[trigger] self.output_buf@[c])@
                        == queued[c]@ + out@ by {
                        if c < ch {
                            assert(self.output_buf@[c] == snapshot[c]);
                        }
                    }
                    ch += 1;
                }
                proof {
                    let longer = outs.push(out@);
                    assert(longer.drop_last() =~= outs);
                    assert forall|c: int| 0 <= c < self.channels implies (
                    #[trigger] self.output_buf@[c])@ == start[c]@ + concat(longer) by {
                        assert(queued[c]@ == start[c]@ + concat(outs));
                        assert(queued[c]@ + out@ =~= start[c]@ + concat(longer));
                    }
                    outs = longer;
                }
                hops += 1;
            }
        }
        assert(hops_denoised(first, *denoise, states, outs));
        (current, hops)
    }
}

/// Pieces, one after the other.
pub open spec fn concat<T>(pieces: Seq<Seq<T>>) -> Seq<T>
    decreases pieces.len(),
{
    if pieces.len() == 0 {
        Seq::empty()
    } else {
        concat(pieces.drop_last()) + pieces.last()
    }
}

/// `out` is what `denoise`, with its state going from `from` to `to`, makes of hop `k` of a channel.
pub open spec fn hop_denoised<T, S, F: Fn(S, &Vec<T>) -> (S, Vec<T>)>(
    channel: Seq<T>,
    denoise: F,
    from: S,
    to: S,
    k: int,
    out: Seq<T>,
) -> bool {
    exists|row: Vec<T>, v: Vec<T>|
        {
            &&& row@ == channel.subrange(k * HOP_SIZE, k * HOP_SIZE + HOP_SIZE)
            &&& v@ == out
            &&& #[trigger] denoise.ensures((from, &row), (to, v))
        }
}

/// `outs` are what `denoise` makes of the first hops of a channel, going through `states`.
pub open spec fn hops_denoised<T, S, F: Fn(S, &Vec<T>) -> (S, Vec<T>)>(
    channel: Seq<T>,
    denoise: F,
    states: Seq<S>,
    outs: Seq<Seq<T>>,
) -> bool {
    forall|k: int|
        0 <= k < outs.len() ==> hop_denoised(
            channel,
            denoise,
            states[k],
            states[k + 1],
            k,
            #[trigger] outs[k],
        )
}

/// Each channel of `after` has gained what `denoise`, with its state going from `from` to `to`, makes
/// of the first `hops` hops of the first channel of `before`.
pub open spec fn all_denoised<T, S, F: Fn(S, &Vec<T>) -> (S, Vec<T>)>(
    before: UpallaPlugin<T>,
    after: UpallaPlugin<T>,
    denoise: F,
    from: S,
    to: S,
    hops: nat,
) -> bool {
    &&& after.output_buf@.len() == before.output_buf@.len()
    &&& forall|c: int|
        before.channels <= c < before.output_buf@.len() ==> #[trigger] after.output_buf@[c]
            == before.output_buf@[c]
    &&& exists|states: Seq<S>, outs: Seq<Seq<T>>|
        {
            &&& #[trigger] hops_denoised(before.input_buf@[0]@, denoise, states, outs)
            &&& outs.len() == hops
            &&& states.len() == hops + 1
            &&& states[0] == from
            &&& states[hops as int] == to
            &&& forall|c: int|
                0 <= c < before.channels ==> (#[trigger] after.output_buf@[c])@
                    == before.output_buf@[c]@ + concat(outs)
        }
}

/// From the input of `before` to that of `after`, every channel has lost its first `hops` hops.
pub open spec fn hops_taken<T>(
    before: UpallaPlugin<T>,
    after: UpallaPlugin<T>,
    hops: nat,
) -> bool {
    &&& after.input_buf@.len() == before.input_buf@.len()
    &&& forall|c: int|
        0 <= c < before.channels ==> (#[trigger] after.input_buf@[c])@ == without(
            before.input_buf@[c]@,
            (hops * HOP_SIZE) as nat,
        )
    &&& forall|c: int|
        before.channels <= c < before.input_buf@.len() ==> #[trigger] after.input_buf@[c]
            == before.input_buf@[c]
}

/// Hop `k` of each of the first `n` buffers, filled up with `zero`.
pub open spec fn hops_from<T>(bufs: Seq<VecDeque<T>>, n: nat, k: int, zero: T) -> Seq<Seq<T>> {
    Seq::new(n, |c: int| hop_of(without(bufs[c]@, (k * HOP_SIZE) as nat), zero))
}

/// `reals` and `imags` are what `forward` makes of the first hops of `channels` buffers, one after the
/// other, going through the states of `chain`.
pub open spec fn hops_analysed<T, S, F: Fn(S, &Vec<T>) -> (S, (Vec<T>, Vec<T>))>(
    forward: F,
    bufs: Seq<VecDeque<T>>,
    channels: nat,
    chain: Seq<Seq<S>>,
    reals: Seq<Vec<Vec<T>>>,
    imags: Seq<Vec<Vec<T>>>,
    zero: T,
) -> bool {
    forall|k: int|
        0 <= k < reals.len() ==> hop_analysed(
            forward,
            chain[k],
            chain[k + 1],
            hops_from(bufs, channels, k, zero),
            #[trigger] reals[k],
            imags[k],
        )
}

/// Kept spectra that count as sent after `more` spectra: those that were dropped count no longer.
pub open spec fn sent_after_all(kept: nat, sent: nat, more: nat) -> nat {
    if kept + more <= HISTORY_CAP {
        sent
    } else if sent + HISTORY_CAP >= kept + more {
        (sent + HISTORY_CAP - kept - more) as nat
    } else {
        0
    }
}

/// The spectra that `after` keeps are the most recent of those of `before` and of what `forward`, with
/// its states going from `from` to `to`, makes of the first `hops` hops.
pub open spec fn all_analysed<T, S, F: Fn(S, &Vec<T>) -> (S, (Vec<T>, Vec<T>))>(
    before: UpallaPlugin<T>,
    after: UpallaPlugin<T>,
    forward: F,
    from: Seq<S>,
    to: Seq<S>,
    hops: nat,
    zero: T,
) -> bool {
    &&& after.last_sent_frame == sent_after_all(
        before.spec_real_history@.len(),
        before.last_sent_frame as nat,
        hops,
    )
    &&& exists|chain: Seq<Seq<S>>, reals: Seq<Vec<Vec<T>>>, imags: Seq<Vec<Vec<T>>>|
        {
            &&& #[trigger] hops_analysed(
                forward,
                before.input_buf@,
                before.channels as nat,
                chain,
                reals,
                imags,
                zero,
            )
            &&& reals.len() == hops
            &&& imags.len() == hops
            &&& chain.len() == hops + 1
            &&& chain[0] == from
            &&& chain[hops as int] == to
            &&& after.spec_real_history@ == kept_all(before.spec_real_history@, reals)
            &&& after.spec_imag_history@ == kept_all(before.spec_imag_history@, imags)
        }
}

/// Nothing is lost between a buffer and what is read from it: what is read, as far as there was anything, and
/// what stays behind make up the buffer; past its end there is silence, and a closed output gives silence and
/// lets the same samples go.
pub proof fn lemma_read_and_rest_make_the_buffer<T>(buf: Seq<T>, n: nat, zero: T)
    ensures
        drained(buf, false, n, zero).len() == n,
        drained(buf, true, n, zero) == repeated(zero, n),
        n <= buf.len() ==> drained(buf, false, n, zero) + without(buf, n) == buf,
        n > buf.len() ==> without(buf, n).len() == 0 && drained(buf, false, n, zero) == buf + repeated(
            zero,
            (n - buf.len()) as nat,
        ),
{
    assert(drained(buf, true, n, zero) =~= repeated(zero, n));
    if n <= buf.len() {
        assert(drained(buf, false, n, zero) + without(buf, n) =~= buf);
    } else {
        assert(drained(buf, false, n, zero) =~= buf + repeated(zero, (n - buf.len()) as nat));
    }
}

/// A hop and what stays behind it make up the buffer, sample by sample; a buffer that is too short is filled
/// up with silence.
pub proof fn lemma_hop_and_rest_make_the_buffer<T>(buf: Seq<T>, zero: T, i: int)
    ensures
        hop_of(buf, zero).len() == 480,
        buf.len() >= 480 ==> hop_of(buf, zero) + without(buf, 480) == buf,
        0 <= i < 480 && i < buf.len() ==> hop_of(buf, zero)[i] == buf[i],
        buf.len() <= i < 480 ==> hop_of(buf, zero)[i] == zero,
{
    if buf.len() >= 480 {
        assert(hop_of(buf, zero) + without(buf, 480) =~= buf);
    }
}

/// Hops follow each other without a gap: sample `i` of hop `k` of a channel is sample `480 * k + i` of what
/// was waiting in it.
pub proof fn lemma_hops_follow_each_other<T>(bufs: Seq<VecDeque<T>>, n: nat, k: int, zero: T, c: int, i: int)
    requires
        0 <= c < n,
        0 <= k,
        0 <= i < 480,
        480 * (k + 1) <= bufs[c]@.len(),
    ensures
        hops_from(bufs, n, k, zero).len() == n,
        hops_from(bufs, n, k, zero)[c].len() == 480,
        hops_from(bufs, n, k, zero)[c][i] == bufs[c]@[480 * k + i],
{
    let rest = without(bufs[c]@, (k * HOP_SIZE) as nat);
    assert(hops_from(bufs, n, k, zero)[c] == hop_of(rest, zero));
    assert(rest.len() >= 480);
    assert(rest[i] == bufs[c]@[480 * k + i]);
}

/// Frames that were not sent yet stay so: as long as something was sent, or there is room, what follows the
/// mark after one more frame is what followed it before, and the new frame.
pub proof fn lemma_unsent_frames_stay<S>(history: Seq<S>, newest: S, sent: usize)
    requires
        sent <= history.len() <= 64,
    ensures
        kept(history, newest).len() <= 64,
        kept(history, newest).last() == newest,
        sent_after(history.len(), sent) <= kept(history, newest).len(),
        history.len() < 64 || sent > 0 ==> kept(history, newest).skip(
            sent_after(history.len(), sent) as int,
        ) == history.skip(sent as int).push(newest),
        history.len() == 64 && sent == 0 ==> sent_after(history.len(), sent) == 0,
{
    if history.len() < 64 || sent > 0 {
        assert(kept(history, newest).skip(sent_after(history.len(), sent) as int) =~= history.skip(
            sent as int,
        ).push(newest));
    }
}

/// After any number of frames the mark stands where counting one by one puts it: it keeps its distance to the
/// newest frame that was sent, and never falls below the oldest that is kept.
pub proof fn lemma_mark_moves_with_the_history(kept: nat, sent: nat, more: nat)
    requires
        sent <= kept <= 64,
    ensures
        ({
            let now = if kept + more <= 64 {
                kept + more
            } else {
                64
            };
            let unsent = kept + more - sent;
            &&& sent_after_all(kept, sent, more) <= now
            &&& unsent <= now ==> now - sent_after_all(kept, sent, more) == unsent
            &&& unsent > now ==> sent_after_all(kept, sent, more) == 0
        }),
{
}

/// How long the output stays open: for twenty more blocks after each one in which a voice was heard, and one
/// less after each in which none was.
pub proof fn lemma_voice_opens_for_twenty_blocks(remaining: usize)
    ensures
        open_after(remaining, true) == 20,
        remaining > 0 ==> open_after(remaining, false) + 1 == remaining,
        open_after(0, false) == 0,
{
}

/// As many frames are given out as the result has, unless fewer are kept; without both parts of a result none
/// is.
pub proof fn lemma_frames_given_out<T>(plugin: UpallaPlugin<T>)
    ensures
        plugin.applied() <= plugin.spec_real_history@.len(),
        plugin.applied() <= plugin.last_num_frames,
        plugin.last_mask is None || plugin.last_coefs is None ==> plugin.applied() == 0,
        plugin.last_mask is Some && plugin.last_coefs is Some ==> plugin.applied()
            == plugin.last_num_frames || plugin.applied() == plugin.spec_real_history@.len(),
{
}

/// Frames of a channel that are joined follow each other in their order: sample `i` of frame `t` comes at
/// `480 * t + i`.
pub proof fn lemma_joined_frames_in_order<T>(frames: Seq<Seq<Seq<T>>>, ch: int, n: int, t: int, i: int)
    requires
        forall|s: int| 0 <= s < n ==> (#[trigger] frames[s])[ch].len() == 480,
        0 <= t < n,
        0 <= i < 480,
    ensures
        joined(frames, ch, n).len() == 480 * n,
        joined(frames, ch, n)[480 * t + i] == frames[t][ch][i],
    decreases n,
{
    assert(frames[n - 1][ch].len() == 480);
    if n == 1 {
        assert(joined(frames, ch, 0).len() == 0);
    } else if t < n - 1 {
        lemma_joined_frames_in_order(frames, ch, n - 1, t, i);
    } else {
        lemma_joined_frames_in_order(frames, ch, n - 1, 0, i);
    }
}

/// Pieces of a hop each that are put together follow each other in their order.
pub proof fn lemma_concat_in_order<T>(pieces: Seq<Seq<T>>, k: int, i: int)
    requires
        forall|s: int| 0 <= s < pieces.len() ==> (#[trigger] pieces[s]).len() == 480,
        0 <= k < pieces.len(),
        0 <= i < 480,
    ensures
        concat(pieces).len() == 480 * pieces.len(),
        concat(pieces)[480 * k + i] == pieces[k][i],
    decreases pieces.len(),
{
    let front = pieces.drop_last();
    assert(pieces.last() == pieces[pieces.len() - 1]);
    assert forall|s: int| 0 <= s < front.len() implies (#[trigger] front[s]).len() == 480 by {
        assert(front[s] == pieces[s]);
    }
    if front.len() == 0 {
        assert(concat(front).len() == 0);
    } else if k < front.len() {
        lemma_concat_in_order(front, k, i);
    } else {
        lemma_concat_in_order(front, 0, i);
    }
}

/// What a worker is sent of each frame is its first channel.
pub proof fn lemma_first_channel_is_sent<T>(spectra: Seq<Vec<Vec<T>>>, rows: Seq<Vec<T>>, t: int)
    requires
        first_channels(spectra, rows),
        0 <= t < spectra.len(),
    ensures
        rows.len() == spectra.len(),
        rows[t]@ == spectra[t]@[0]@,
{
}

/// What a frame of a channel is made of before it is turned back into audio, in so many words: from bin 96 on
/// the bin of the kept frame itself; below it five terms, tap `k` with the bin of the kept frame `t + k - 2`
/// of the same channel, times the pair of coefficients of that tap, frame and bin.
pub proof fn lemma_restored_bin_by_bin<T: Add<Output = T> + Mul<Output = T> + Sub<Output = T>>(
    value: spec_fn(T) -> int,
    plugin: UpallaPlugin<T>,
    ch: int,
    t: int,
    f: int,
    zero: T,
    re: T,
    im: T,
)
    requires
        exact(value, zero),
        exact_differences(value),
        plugin.last_num_frames <= plugin.spec_real_history@.len(),
        plugin.last_num_frames <= plugin.spec_imag_history@.len(),
        0 <= t < plugin.spec_real_history@.len(),
        t < plugin.spec_imag_history@.len(),
        bin_filtered(channel_view(plugin, ch), t, f, zero, re, im),
    ensures
        f >= 96 ==> re == plugin.spec_real_history@[t]@[ch]@[f] && im
            == plugin.spec_imag_history@[t]@[ch]@[f],
        f < 96 ==> ({
            let frames = plugin.last_num_frames as int;
            let coefs = plugin.last_coefs->Some_0@;
            let re_term = |k: int|
                if 0 <= t + k - 2 < frames {
                    let c = 2 * ((k * frames + t) * 96 + f);
                    value(plugin.spec_real_history@[t + k - 2]@[ch]@[f]) * value(coefs[c]) - value(
                        plugin.spec_imag_history@[t + k - 2]@[ch]@[f],
                    ) * value(coefs[c + 1])
                } else {
                    0
                };
            let im_term = |k: int|
                if 0 <= t + k - 2 < frames {
                    let c = 2 * ((k * frames + t) * 96 + f);
                    value(plugin.spec_real_history@[t + k - 2]@[ch]@[f]) * value(coefs[c + 1]) + value(
                        plugin.spec_imag_history@[t + k - 2]@[ch]@[f],
                    ) * value(coefs[c])
                } else {
                    0
                };
            &&& value(re) == re_term(0) + re_term(1) + re_term(2) + re_term(3) + re_term(4)
            &&& value(im) == im_term(0) + im_term(1) + im_term(2) + im_term(3) + im_term(4)
        }),
{
    let v = channel_view(plugin, ch);
    lemma_deep_filter_sums_five_taps(value, v, t, f, zero, re, im);
    assert forall|s: int| 0 <= s < plugin.last_num_frames implies #[trigger] v.reals[s]
        == plugin.spec_real_history@[s]@[ch]@ && v.imags[s] == plugin.spec_imag_history@[s]@[ch]@ by {}
}

/// What a denoiser is given of a channel: hop `k` is samples `480 * k` to `480 * k + 479` of it, and each run
/// takes up where the one before it has ended.
pub proof fn lemma_hop_denoised_by_sample<T, S, F: Fn(S, &Vec<T>) -> (S, Vec<T>)>(
    channel: Seq<T>,
    denoise: F,
    states: Seq<S>,
    outs: Seq<Seq<T>>,
    k: int,
)
    requires
        hops_denoised(channel, denoise, states, outs),
        0 <= k < outs.len(),
        480 * outs.len() <= channel.len(),
    ensures
        exists|row: Vec<T>, v: Vec<T>|
            {
                &&& #[trigger] denoise.ensures((states[k], &row), (states[k + 1], v))
                &&& row@.len() == 480
                &&& forall|i: int| 0 <= i < 480 ==> #[trigger] row@[i] == channel[480 * k + i]
                &&& v@ == outs[k]
            },
{
    assert(hop_denoised(channel, denoise, states[k], states[k + 1], k, outs[k]));
    let (row, v) = choose|row: Vec<T>, v: Vec<T>|
        {
            &&& row@ == channel.subrange(k * HOP_SIZE, k * HOP_SIZE + HOP_SIZE)
            &&& v@ == outs[k]
            &&& #[trigger] denoise.ensures((states[k], &row), (states[k + 1], v))
        };
    assert(row@.len() == 480);
}

/// Whole hops go from the front of every channel, and what is left keeps its order.
pub proof fn lemma_hops_go_from_the_front<T>(
    before: UpallaPlugin<T>,
    after: UpallaPlugin<T>,
    hops: nat,
    c: int,
    i: int,
)
    requires
        hops_taken(before, after, hops),
        before.wf(),
        0 <= c < before.channels,
        480 * hops <= before.input_buf@[c]@.len(),
    ensures
        after.input_buf@[c]@.len() + 480 * hops == before.input_buf@[c]@.len(),
        0 <= i < after.input_buf@[c]@.len() ==> after.input_buf@[c]@[i] == before.input_buf@[c]@[480 * hops
            + i],
{
    let _ = after.input_buf@[c];
}

/// What stays the same while results and spectra do.
pub proof fn lemma_same_spectra_and_results<T>(a: UpallaPlugin<T>, b: UpallaPlugin<T>)
    ensures
        a.same_spectra(&b) ==> {
            &&& a.spec_real_history == b.spec_real_history
            &&& a.spec_imag_history == b.spec_imag_history
            &&& a.pending_task == b.pending_task
            &&& a.last_sent_frame == b.last_sent_frame
            &&& a.same_results(&b)
        },
        a.same_results(&b) ==> a.last_mask == b.last_mask && a.last_coefs == b.last_coefs
            && a.last_num_frames == b.last_num_frames,
{
}

/// What a plugin keeps is in step: no more than 64 frames, as many real as imaginary parts, each with a whole
/// spectrum for every channel, and a mark that lies within them.
pub proof fn lemma_history_in_step<T>(plugin: UpallaPlugin<T>, t: int, c: int)
    requires
        plugin.wf(),
        0 <= t < plugin.spec_real_history@.len(),
        0 <= c < plugin.channels,
    ensures
        plugin.spec_real_history@.len() <= 64,
        plugin.spec_imag_history@.len() == plugin.spec_real_history@.len(),
        plugin.last_sent_frame <= plugin.spec_real_history@.len(),
        plugin.spec_real_history@[t]@.len() == plugin.channels,
        plugin.spec_imag_history@[t]@.len() == plugin.channels,
        plugin.spec_real_history@[t]@[c]@.len() == 481,
        plugin.spec_imag_history@[t]@[c]@.len() == 481,
        plugin.channels <= plugin.input_buf@.len() == plugin.output_buf@.len(),
{
    assert(spectrum_ok(plugin.spec_real_history@[t], plugin.channels));
    assert(spectrum_ok(plugin.spec_imag_history@[t], plugin.channels));
}

/// What is analysed of a channel: hop `k` is samples `480 * k` to `480 * k + 479` of it, each transform takes
/// up where it has ended with the hop before, and what it gives is the spectrum of that hop and channel.
pub proof fn lemma_hop_analysed_by_sample<T, S, F: Fn(S, &Vec<T>) -> (S, (Vec<T>, Vec<T>))>(
    forward: F,
    bufs: Seq<VecDeque<T>>,
    channels: nat,
    chain: Seq<Seq<S>>,
    reals: Seq<Vec<Vec<T>>>,
    imags: Seq<Vec<Vec<T>>>,
    zero: T,
    k: int,
    c: int,
)
    requires
        hops_analysed(forward, bufs, channels, chain, reals, imags, zero),
        0 <= k < reals.len(),
        0 <= c < channels,
        480 * (k + 1) <= bufs[c]@.len(),
    ensures
        reals[k]@.len() == channels,
        imags[k]@.len() == channels,
        exists|row: Vec<T>|
            {
                &&& #[trigger] forward.ensures(
                    (chain[k][c], &row),
                    (chain[k + 1][c], (reals[k]@[c], imags[k]@[c])),
                )
                &&& row@.len() == 480
                &&& forall|i: int| 0 <= i < 480 ==> #[trigger] row@[i] == bufs[c]@[480 * k + i]
            },
{
    let hop = hops_from(bufs, channels, k, zero);
    assert(hop_analysed(forward, chain[k], chain[k + 1], hop, reals[k], imags[k]));
    assert(row_analysed(forward, chain[k][c], chain[k + 1][c], hop[c], reals[k]@[c], imags[k]@[c]));
    let row = choose|row: Vec<T>|
        row@ == hop[c] && #[trigger] forward.ensures(
            (chain[k][c], &row),
            (chain[k + 1][c], (reals[k]@[c], imags[k]@[c])),
        );
    lemma_hops_follow_each_other(bufs, channels, k, zero, c, 0);
    assert forall|i: int| 0 <= i < 480 implies #[trigger] row@[i] == bufs[c]@[480 * k + i] by {
        lemma_hops_follow_each_other(bufs, channels, k, zero, c, i);
    }
}

/// Which results can be applied: any while nothing is kept; else only one of no more frames than are kept, and
/// every such one with five taps of 96 complex coefficients for each of its frames.
pub proof fn lemma_whole_results_fit(coefs: nat, frames: int, kept: nat)
    requires
        0 <= frames,
    ensures
        kept == 0 ==> result_fits(coefs, frames, kept),
        kept > 0 && frames > kept ==> !result_fits(coefs, frames, kept),
        frames <= kept && coefs >= 960 * frames ==> result_fits(coefs, frames, kept),
{
    if frames <= kept && coefs >= 960 * frames {
        assert forall|t: int, n: int|
            0 <= t < frames && 0 <= n < DF_ORDER && tap_in_range(t, n, frames) implies #[trigger] coef_index(
            n,
            t,
            DF_BINS - 1,
            frames,
        ) + 1 < coefs by {
            assert(n * frames <= 4 * frames) by (nonlinear_arith)
                requires
                    0 <= n <= 4,
                    0 <= frames,
            ;
        }
    }
}

} // verus!
