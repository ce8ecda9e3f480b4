//! The PipeWire filter: blocks of any length in, blocks of the same length out, with whole chunks
//! handed to a worker in between.
use vstd::prelude::*;

use crate::buffer::AudioBuf;
use crate::chunk::{StereoChunk, FRAME_SIZE};
use crate::network::{repeat, repeated};
use crate::queue::Worker;

verus! {

/// Denoised samples that may wait to be delivered.
pub const OUT_CAP: usize = 16384;

/// State number of a filter whose stream was paused.
pub const STATE_PAUSED: i32 = 2;

/// A ratio of two numbers.
#[allow(non_camel_case_types)]
#[derive(Clone, Copy, Debug, PartialEq, Eq, Structural)]
pub struct spa_fraction {
    pub num: u32,
    pub denom: u32,
}

/// State of the filter.
#[verifier::reject_recursive_types(T)]
pub struct AppData<T> {
    /// The queues to the thread that denoises.
    pub worker: Option<Worker<T>>,
    /// Input that does not fill a chunk yet, interleaved.
    pub pending: AudioBuf<T>,
    /// Denoised samples to be delivered, interleaved.
    pub out: AudioBuf<T>,
    /// Blocks are passed on untouched.
    pub passthrough: bool,
    /// What is waiting belongs to a stream that has ended.
    pub needs_reset: bool,
}

/// The samples of chunks, one frame after the other.
pub open spec fn frames_of<T>(chunks: Seq<StereoChunk<T>>) -> Seq<T>
    decreases chunks.len(),
{
    if chunks.len() == 0 {
        Seq::empty()
    } else {
        frames_of(chunks.drop_last()) + chunks.last().frame()
    }
}

impl<T> AppData<T> {
    /// Both buffers are valid, and what waits to be delivered is within bounds.
    pub open spec fn wf(&self) -> bool {
        &&& self.pending.wf()
        &&& self.out.wf()
        &&& self.out@.len() <= OUT_CAP
    }

    /// The input that still counts: none once the stream has ended.
    pub open spec fn valid_pending(&self) -> Seq<T> {
        if self.needs_reset {
            Seq::empty()
        } else {
            self.pending@
        }
    }

    /// The output that still counts: none once the stream has ended.
    pub open spec fn valid_out(&self) -> Seq<T> {
        if self.needs_reset {
            Seq::empty()
        } else {
            self.out@
        }
    }

    /// A filter that has seen nothing.
    pub fn new(worker: Option<Worker<T>>, passthrough: bool) -> (data: Self)
        ensures
            data.wf(),
            data.worker == worker,
            data.pending@.len() == 0,
            data.out@.len() == 0,
            data.passthrough == passthrough,
            !data.needs_reset,
    {
        AppData {
            worker,
            pending: AudioBuf::new(),
            out: AudioBuf::new(),
            passthrough,
            needs_reset: false,
        }
    }

    /// Takes note of a change of state. Returns whether the worker has to start anew, which it has
    /// when the stream was paused.
    pub fn state_changed(&mut self, state: i32) -> (reset: bool)
        requires
            old(self).wf(),
        ensures
            final(self).wf(),
            reset == (state == STATE_PAUSED),
            final(self).worker == old(self).worker,
            final(self).needs_reset == (old(self).needs_reset || reset),
            final(self).pending == old(self).pending,
            final(self).out == old(self).out,
            final(self).passthrough == old(self).passthrough,
    {
        let reset = state == STATE_PAUSED;
        if reset {
            self.needs_reset = true;
        }
        reset
    }

    /// Forgets what belongs to a stream that has ended.
    fn settle_reset(&mut self)
        requires
            old(self).wf(),
        ensures
            final(self).wf(),
            !final(self).needs_reset,
            final(self).worker == old(self).worker,
            final(self).passthrough == old(self).passthrough,
            final(self).pending@ == old(self).valid_pending(),
            final(self).out@ == old(self).valid_out(),
    {
        if self.needs_reset {
            self.pending.clear();
            self.out.clear();
            self.needs_reset = false;
        }
    }
}

/// The samples that come in pairs; a last odd one is left out.
pub open spec fn paired<T>(input: Seq<T>) -> Seq<T> {
    input.take(input.len() - input.len() % 2)
}

/// The answers to requests for chunks, after `ready` were taken one by one; `dry` says whether a last
/// request found none.
pub open spec fn answers_after<T>(
    before: Seq<Option<StereoChunk<T>>>,
    ready: Seq<StereoChunk<T>>,
    dry: bool,
) -> Seq<Option<StereoChunk<T>>> {
    before + ready.map_values(|c: StereoChunk<T>| Some(c)) + if dry {
        seq![None]
    } else {
        Seq::empty()
    }
}

/// The worker's denoised chunks were taken as long as there was room for one more: `ready` is what it
/// had, `out0` waited before and `out` waits now.
pub open spec fn collected<T>(
    before: Worker<T>,
    after: Worker<T>,
    out0: Seq<T>,
    out: Seq<T>,
    ready: Seq<StereoChunk<T>>,
) -> bool {
    &&& after.queues() == before.queues()
    &&& after.capacities() == before.capacities()
    &&& out == out0 + frames_of(ready)
    &&& after.received() == answers_after(
        before.received(),
        ready,
        out.len() + FRAME_SIZE <= OUT_CAP,
    )
}

/// The chunks of some offers.
pub open spec fn chunks_in<T>(offers: Seq<(StereoChunk<T>, bool)>) -> Seq<StereoChunk<T>> {
    offers.map_values(|o: (StereoChunk<T>, bool)| o.0)
}

/// Everything that the input fills was offered to the worker, in order: `pending0` waited before and
/// `pending` waits now.
pub open spec fn handed_over<T>(
    before: Worker<T>,
    after: Worker<T>,
    pending0: Seq<T>,
    pending: Seq<T>,
) -> bool {
    let offers = after.sent().skip(before.sent().len() as int);
    &&& after.queues() == before.queues()
    &&& after.capacities() == before.capacities()
    &&& after.sent() == before.sent() + offers
    &&& frames_of(chunks_in(offers)) + pending == pending0
    &&& pending.len() < FRAME_SIZE
}

impl<T: Copy> AppData<T> {
    /// Takes denoised chunks from the worker while there is room for one more.
    fn drain_worker(&mut self, worker: &mut Worker<T>)
        requires
            old(self).wf(),
        ensures
            final(self).wf(),
            final(self).pending == old(self).pending,
            final(self).passthrough == old(self).passthrough,
            final(self).needs_reset == old(self).needs_reset,
            final(worker).sent() == old(worker).sent(),
            exists|ready: Seq<StereoChunk<T>>| #[trigger]
                collected(*old(worker), *final(worker), old(self).out@, final(self).out@, ready),
    {
        let ghost mut ready: Seq<StereoChunk<T>> = Seq::empty();
        let ghost asked = worker.received();
        assert(self.out@ =~= old(self).out@ + frames_of(ready));
        assert(worker.received() =~= answers_after(asked, ready, false));
        let mut more = true;
        while more && self.out.len() + FRAME_SIZE <= OUT_CAP
            invariant
                self.wf(),
                self.pending == old(self).pending,
                self.passthrough == old(self).passthrough,
                self.needs_reset == old(self).needs_reset,
                worker.queues() == old(worker).queues(),
                worker.capacities() == old(worker).capacities(),
                worker.sent() == old(worker).sent(),
                asked == old(worker).received(),
                worker.received() == answers_after(asked, ready, !more),
                !more ==> self.out@.len() + FRAME_SIZE <= OUT_CAP,
                self.out@ == old(self).out@ + frames_of(ready),
            decreases
                    OUT_CAP - self.out@.len(),
                    (if more {
                        1int
                    } else {
                        0
                    }),
        {
            match worker.recv() {
                Some(chunk) => {
                    self.out.push_chunk(&chunk);
                    proof {
                        let longer = ready.push(chunk);
                        assert(longer.drop_last() =~= ready);
                        assert(self.out@ =~= old(self).out@ + frames_of(longer));
                        assert(worker.received() =~= answers_after(asked, longer, false));
                        ready = longer;
                    }
                },
                None => {
                    more = false;
                    assert(worker.received() =~= answers_after(asked, ready, true));
                },
            }
        }
        assert(collected(*old(worker), *worker, old(self).out@, self.out@, ready));
    }

    /// Takes a block of interleaved input.
    pub fn absorb(&mut self, input: &[T])
        requires
            old(self).wf(),
        ensures
            final(self).wf(),
            final(self).worker == old(self).worker,
            final(self).out == old(self).out,
            final(self).passthrough == old(self).passthrough,
            final(self).needs_reset == old(self).needs_reset,
            final(self).pending@ == old(self).pending@ + paired(input@),
    {
        let even: usize = input.len() - input.len() % 2;
        let mut i: usize = 0;
        let ghost start = self.pending@;
        while i < even
            invariant
                i <= even <= input@.len(),
                self.wf(),
                self.worker == old(self).worker,
                self.out == old(self).out,
                self.passthrough == old(self).passthrough,
                self.needs_reset == old(self).needs_reset,
                self.pending@ == start + input@.take(i as int),
            decreases even - i,
        {
            self.pending.push(input[i]);
            i += 1;
            assert(self.pending@ =~= start + input@.take(i as int));
        }
    }

    /// The next chunk to be sent, if the input fills one.
    pub fn next_chunk(&mut self) -> (chunk: Option<StereoChunk<T>>)
        requires
            old(self).wf(),
        ensures
            final(self).wf(),
            final(self).worker == old(self).worker,
            final(self).out == old(self).out,
            final(self).passthrough == old(self).passthrough,
            final(self).needs_reset == old(self).needs_reset,
            chunk is Some <==> old(self).pending@.len() >= FRAME_SIZE,
            chunk matches Some(c) ==> c.frame() + final(self).pending@ == old(self).pending@,
            chunk is None ==> final(self).pending@ == old(self).pending@,
    {
        let ghost before = self.pending@;
        match self.pending.drain_frames(FRAME_SIZE) {
            Some(frame) => {
                let chunk = StereoChunk::from_frame(&frame);
                assert(frame@.take(FRAME_SIZE as int) =~= frame@);
                assert(chunk.frame() + self.pending@ =~= before);
                Some(chunk)
            },
            None => None,
        }
    }

    /// Sends every chunk that the input fills.
    fn feed_worker(&mut self, worker: &mut Worker<T>)
        requires
            old(self).wf(),
        ensures
            final(self).wf(),
            final(self).out == old(self).out,
            final(self).passthrough == old(self).passthrough,
            final(self).needs_reset == old(self).needs_reset,
            final(worker).received() == old(worker).received(),
            handed_over(*old(worker), *final(worker), old(self).pending@, final(self).pending@),
    {
        let ghost before = worker.sent();
        let ghost mut offers: Seq<(StereoChunk<T>, bool)> = Seq::empty();
        assert(frames_of(chunks_in(offers)) + self.pending@ =~= self.pending@);
        assert(worker.sent() =~= before + offers);
        let mut more = true;
        while more
            invariant
                self.wf(),
                self.out == old(self).out,
                self.passthrough == old(self).passthrough,
                self.needs_reset == old(self).needs_reset,
                worker.queues() == old(worker).queues(),
                worker.capacities() == old(worker).capacities(),
                worker.received() == old(worker).received(),
                before == old(worker).sent(),
                worker.sent() == before + offers,
                !more ==> self.pending@.len() < FRAME_SIZE,
                frames_of(chunks_in(offers)) + self.pending@ == old(self).pending@,
            decreases
                    self.pending@.len(),
                    (if more {
                        1int
                    } else {
                        0
                    }),
        {
            let ghost waiting = self.pending@;
            match self.next_chunk() {
                Some(chunk) => {
                    let refused = worker.send(chunk);
                    proof {
                        let longer = offers.push((chunk, refused is None));
                        assert(chunks_in(longer).drop_last() =~= chunks_in(offers));
                        assert(frames_of(chunks_in(longer)) + self.pending@ =~= frames_of(
                            chunks_in(offers),
                        ) + waiting);
                        assert(worker.sent() =~= before + longer);
                        offers = longer;
                    }
                },
                None => {
                    more = false;
                },
            }
        }
        assert(worker.sent().skip(before.len() as int) =~= offers);
    }

    /// Takes up to `n` denoised samples, and fills up with `zero`.
    fn deliver(&mut self, n: usize, zero: T) -> (output: Vec<T>)
        requires
            old(self).wf(),
        ensures
            final(self).wf(),
            final(self).pending == old(self).pending,
            final(self).passthrough == old(self).passthrough,
            final(self).needs_reset == old(self).needs_reset,
            delivered(old(self).out@, final(self).out@, output@, n as nat, zero),
    {
        let mut output = self.out.take_available(n);
        let ghost taken = output@;
        assert(taken =~= old(self).out@.take(taken.len() as int));
        assert(self.out@ =~= old(self).out@.skip(taken.len() as int));
        while output.len() < n
            invariant
                taken.len() <= output@.len() <= n,
                output@ == taken + repeated(zero, (output@.len() - taken.len()) as nat),
            decreases n - output@.len(),
        {
            output.push(zero);
            assert(output@ =~= taken + repeated(zero, (output@.len() - taken.len()) as nat));
        }
        output
    }

    /// Processes one block: what the worker has ready is collected, the input is handed to it chunk by
    /// chunk, and as many samples as came in go out. A chunk that the worker has no room for is lost.
    pub fn on_process(&mut self, input: &[T], zero: T) -> (output: Vec<T>)
        requires
            old(self).wf(),
        ensures
            final(self).wf(),
            output@.len() == input@.len(),
            final(self).passthrough == old(self).passthrough,
            old(self).passthrough || old(self).worker is None ==> output@ == input@
                && *final(self) == *old(self),
            !old(self).passthrough && old(self).worker is Some ==> {
                &&& !final(self).needs_reset
                &&& final(self).worker is Some
                &&& exists|ready: Seq<StereoChunk<T>>|
                    {
                        &&& #[trigger] collected(
                            old(self).worker->Some_0,
                            final(self).worker->Some_0,
                            old(self).valid_out(),
                            old(self).valid_out() + frames_of(ready),
                            ready,
                        )
                        &&& delivered(
                            old(self).valid_out() + frames_of(ready),
                            final(self).out@,
                            output@,
                            input@.len(),
                            zero,
                        )
                    }
                &&& handed_over(
                    old(self).worker->Some_0,
                    final(self).worker->Some_0,
                    old(self).valid_pending() + paired(input@),
                    final(self).pending@,
                )
            },
    {
        if self.passthrough {
            return copy_slice(input);
        }
        let mut worker = match self.worker.take() {
            Some(worker) => worker,
            None => return copy_slice(input),
        };
        self.settle_reset();
        let ghost out0 = self.out@;
        self.drain_worker(&mut worker);
        let ghost filled = self.out@;
        let ghost drained = worker;
        self.absorb(input);
        self.feed_worker(&mut worker);
        let output = self.deliver(input.len(), zero);
        proof {
            let ready = choose|ready: Seq<StereoChunk<T>>| #[trigger]
                collected(old(self).worker->Some_0, drained, out0, filled, ready);
            assert(collected(
                old(self).worker->Some_0,
                worker,
                out0,
                out0 + frames_of(ready),
                ready,
            ));
        }
        self.worker = Some(worker);
        assert(out0 == old(self).valid_out());
        output
    }
}

/// `output` is the first `n` of `before`, filled up with `zero`, and `after` is what is left.
pub open spec fn delivered<T>(
    before: Seq<T>,
    after: Seq<T>,
    output: Seq<T>,
    n: nat,
    zero: T,
) -> bool {
    let k = if before.len() <= n {
        before.len() as int
    } else {
        n as int
    };
    &&& output == before.take(k) + repeated(zero, (n - k) as nat)
    &&& after == before.skip(k)
}

/// The same samples.
fn copy_slice<T: Copy>(samples: &[T]) -> (copy: Vec<T>)
    ensures
        copy@ == samples@,
{
    let mut copy: Vec<T> = Vec::with_capacity(samples.len());
    let mut i: usize = 0;
    while i < samples.len()
        invariant
            i <= samples@.len(),
            copy@ == samples@.take(i as int),
        decreases samples@.len() - i,
    {
        copy.push(samples[i]);
        i += 1;
        assert(copy@ =~= samples@.take(i as int));
    }
    assert(copy@ =~= samples@);
    copy
}

/// Chunks that are put together follow each other in their order: pair `i` of chunk `k` stands at
/// `960 * k + 2 * i`, the left sample first.
pub proof fn lemma_chunks_in_order<T>(chunks: Seq<StereoChunk<T>>, k: int, i: int)
    requires
        0 <= k < chunks.len(),
        0 <= i < 480,
    ensures
        frames_of(chunks).len() == 960 * chunks.len(),
        frames_of(chunks)[960 * k + 2 * i] == chunks[k].left@[i],
        frames_of(chunks)[960 * k + 2 * i + 1] == chunks[k].right@[i],
    decreases chunks.len(),
{
    let front = chunks.drop_last();
    let last = chunks.last();
    assert(last.frame().len() == 960);
    if front.len() == 0 {
        assert(frames_of(front).len() == 0);
    } else if k < front.len() {
        lemma_chunks_in_order(front, k, i);
        assert(front[k] == chunks[k]);
    } else {
        lemma_chunks_in_order(front, 0, i);
    }
}

/// What is played: what was waiting, sample by sample, and silence once that has run out; what was not played
/// goes on waiting.
pub proof fn lemma_delivery_by_sample<T>(
    before: Seq<T>,
    after: Seq<T>,
    output: Seq<T>,
    n: nat,
    zero: T,
    i: int,
)
    requires
        delivered(before, after, output, n, zero),
    ensures
        output.len() == n,
        0 <= i < n && i < before.len() ==> output[i] == before[i],
        before.len() <= i < n ==> output[i] == zero,
        n <= before.len() ==> after.len() == before.len() - n,
        n >= before.len() ==> after.len() == 0,
        n <= before.len() ==> output + after == before,
        0 <= i < after.len() ==> after[i] == before[n + i],
{
    if n <= before.len() {
        assert(output + after =~= before);
    }
}

/// Audio is taken in pairs: all of it where both samples of the last pair are there, and all but the last
/// sample where one is missing.
pub proof fn lemma_pairs_only<T>(input: Seq<T>)
    ensures
        paired(input).len() % 2 == 0,
        paired(input).len() <= input.len() <= paired(input).len() + 1,
        paired(input).is_prefix_of(input),
{
}

/// What has been heard from a worker: all that was heard before, each chunk in its turn, and at the end that
/// nothing more was there, where that was so.
pub proof fn lemma_answers_in_order<T>(
    before: Seq<Option<StereoChunk<T>>>,
    ready: Seq<StereoChunk<T>>,
    dry: bool,
    i: int,
)
    ensures
        before.is_prefix_of(answers_after(before, ready, dry)),
        0 <= i < ready.len() ==> answers_after(before, ready, dry)[before.len() + i] == Some(ready[i]),
        answers_after(before, ready, false).len() == before.len() + ready.len(),
        answers_after(before, ready, true).len() == before.len() + ready.len() + 1,
        answers_after(before, ready, true).last() is None,
{
}

/// After a reset nothing from before it counts.
pub proof fn lemma_reset_forgets<T>(data: AppData<T>)
    ensures
        data.needs_reset ==> data.valid_pending().len() == 0 && data.valid_out().len() == 0,
        !data.needs_reset ==> data.valid_pending() == data.pending@ && data.valid_out() == data.out@,
{
}

/// How long a worker is asked: chunk after chunk until it has none, or until no further chunk fits into what
/// may wait to be played.
pub proof fn lemma_worker_is_asked_while_there_is_room<T>(
    before: Worker<T>,
    after: Worker<T>,
    out0: Seq<T>,
    out: Seq<T>,
    ready: Seq<StereoChunk<T>>,
)
    requires
        collected(before, after, out0, out, ready),
    ensures
        out.len() + 960 <= 16384 ==> after.received().len() == before.received().len() + ready.len() + 1
            && after.received().last() is None,
        out.len() + 960 > 16384 ==> after.received().len() == before.received().len() + ready.len(),
        forall|i: int|
            0 <= i < ready.len() ==> after.received()[before.received().len() + i] == Some(
                #[trigger] ready[i],
            ),
        out0.is_prefix_of(out),
        out.skip(out0.len() as int) == frames_of(ready),
{
    assert(out.skip(out0.len() as int) =~= frames_of(ready));
}

/// What a worker is handed: all that is pending, in its order, as far as it fills chunks; what is left does
/// not fill one.
pub proof fn lemma_pending_audio_is_handed_over<T>(
    before: Worker<T>,
    after: Worker<T>,
    pending0: Seq<T>,
    pending: Seq<T>,
)
    requires
        handed_over(before, after, pending0, pending),
    ensures
        pending.len() < 960,
        before.sent().is_prefix_of(after.sent()),
        frames_of(chunks_in(after.sent().skip(before.sent().len() as int))) + pending == pending0,
        pending == pending0.skip(pending0.len() - pending.len()),
{
    let offers = after.sent().skip(before.sent().len() as int);
    assert(pending =~= pending0.skip(pending0.len() - pending.len()));
    assert(before.sent().is_prefix_of(after.sent()));
}

} // verus!
