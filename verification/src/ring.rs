//! Sample rings between a device callback and the processing loop.
//!
//! A ring carries samples as their 32-bit patterns; the pattern of silence is zero. Each end is
//! owned by one thread, so what one end knows of the other is a bound: places once seen free stay
//! free until this end fills them, samples once seen waiting stay until this end takes them.
use vstd::prelude::*;

use crate::buffer::AudioBuf;
use crate::chunk::FRAME_SIZE;

verus! {

/// Samples that a device ring holds.
pub const RINGBUF_CAP: usize = 16384;

/// Frames of silence put into an output ring before its stream starts, as a jitter cushion.
pub const OUTPUT_PREFILL_FRAMES: usize = 3;

/// Frames of occupancy below which the cushion is topped up again.
pub const OUTPUT_LOW_WATER_FRAMES: usize = 2;

/// The write end of a ring.
#[verifier::external_body]
pub struct RingProducer {
    end: ringbuf::HeapProd<u32>,
}

/// The read end of a ring.
#[verifier::external_body]
pub struct RingConsumer {
    end: ringbuf::HeapCons<u32>,
}

/// Every sample written through this end so far, oldest first.
pub uninterp spec fn pushed(prod: RingProducer) -> Seq<u32>;

/// Places that this end knows to be free.
pub uninterp spec fn room(prod: RingProducer) -> nat;

/// Places of the ring that this end belongs to.
pub uninterp spec fn places(prod: RingProducer) -> nat;

/// Every answer to how many samples were waiting in the ring, as this end has asked, oldest first.
pub uninterp spec fn seen_unread(prod: RingProducer) -> Seq<nat>;

/// Every answer to how many places were free, as this end has asked, oldest first.
pub uninterp spec fn seen_free(prod: RingProducer) -> Seq<nat>;

/// Every sample read through this end so far, oldest first.
pub uninterp spec fn popped(cons: RingConsumer) -> Seq<u32>;

/// Samples that this end knows to be waiting.
pub uninterp spec fn ready(cons: RingConsumer) -> nat;

/// Every answer to how many samples were waiting, as this end has asked, oldest first.
pub uninterp spec fn seen_waiting(cons: RingConsumer) -> Seq<nat>;

/// The write end has asked nothing in between.
pub open spec fn asked_nothing(before: RingProducer, after: RingProducer) -> bool {
    &&& seen_unread(after) == seen_unread(before)
    &&& seen_free(after) == seen_free(before)
}

/// `ringbuf::HeapRb::new` and `split`: a ring of exactly `capacity` places, all free, and its
/// two ends. The call panics on a capacity of zero, and on one that memory cannot hold; the rings of
/// this library are small.
#[verifier::external_body]
fn new_ring(capacity: usize) -> (ends: (RingProducer, RingConsumer))
    requires
        0 < capacity <= RINGBUF_CAP,
    ensures
        pushed(ends.0) == Seq::<u32>::empty(),
        room(ends.0) == capacity,
        places(ends.0) == capacity,
        seen_unread(ends.0) == Seq::<nat>::empty(),
        seen_free(ends.0) == Seq::<nat>::empty(),
        popped(ends.1) == Seq::<u32>::empty(),
        ready(ends.1) == 0,
        seen_waiting(ends.1) == Seq::<nat>::empty(),
{
    let (prod, cons) = ringbuf::traits::Split::split(ringbuf::HeapRb::<u32>::new(capacity));
    (RingProducer { end: prod }, RingConsumer { end: cons })
}

/// `ringbuf`'s `Observer::vacant_len` at the write end: the places free at the moment of the
/// call. The reader can only free more, so all of them stay free for this end. The answer is put on
/// record.
#[verifier::external_body]
fn vacant_len(prod: &mut RingProducer) -> (free: usize)
    ensures
        pushed(*final(prod)) == pushed(*old(prod)),
        places(*final(prod)) == places(*old(prod)),
        room(*final(prod)) == free,
        room(*old(prod)) <= free <= places(*old(prod)),
        seen_free(*final(prod)) == seen_free(*old(prod)).push(free as nat),
        seen_unread(*final(prod)) == seen_unread(*old(prod)),
{
    ringbuf::traits::Observer::vacant_len(&prod.end)
}

/// `ringbuf`'s `Observer::occupied_len` at the write end: the samples waiting at the moment of
/// the call. They were written through this end and do not stand in places known to be free; how
/// many of them the reader has taken by then is left open. The answer is put on record.
#[verifier::external_body]
fn unread_len(prod: &mut RingProducer) -> (waiting: usize)
    ensures
        pushed(*final(prod)) == pushed(*old(prod)),
        places(*final(prod)) == places(*old(prod)),
        room(*final(prod)) == room(*old(prod)),
        waiting <= pushed(*old(prod)).len(),
        waiting + room(*old(prod)) <= places(*old(prod)),
        seen_unread(*final(prod)) == seen_unread(*old(prod)).push(waiting as nat),
        seen_free(*final(prod)) == seen_free(*old(prod)),
{
    ringbuf::traits::Observer::occupied_len(&prod.end)
}

/// `ringbuf`'s `Producer::push_slice`: writes as many of the first samples as there are free
/// places, and returns how many. Places known to be free are among them.
#[verifier::external_body]
fn push_slice(prod: &mut RingProducer, samples: &[u32]) -> (n: usize)
    ensures
        n <= samples@.len(),
        n < samples@.len() ==> n >= room(*old(prod)),
        pushed(*final(prod)) == pushed(*old(prod)) + samples@.take(n as int),
        places(*final(prod)) == places(*old(prod)),
        room(*final(prod)) >= room(*old(prod)) - n,
        asked_nothing(*old(prod), *final(prod)),
{
    ringbuf::traits::Producer::push_slice(&mut prod.end, samples)
}

/// `ringbuf`'s `Observer::occupied_len` at the read end: the samples waiting at the moment of the
/// call. The writer can only add more, so all of them stay for this end. The answer is put on record.
#[verifier::external_body]
fn occupied_len(cons: &mut RingConsumer) -> (waiting: usize)
    ensures
        popped(*final(cons)) == popped(*old(cons)),
        ready(*final(cons)) == waiting,
        waiting >= ready(*old(cons)),
        seen_waiting(*final(cons)) == seen_waiting(*old(cons)).push(waiting as nat),
{
    ringbuf::traits::Observer::occupied_len(&cons.end)
}

/// `ringbuf`'s `Consumer::pop_slice`: moves as many waiting samples as fit into the front of
/// `out`, oldest first, leaves the rest of `out` as it was, and returns how many were moved.
/// Samples known to be waiting are among them. That they are the samples written at the other end is
/// left unsaid: that end is owned by another thread, and nothing here names its state.
#[verifier::external_body]
fn pop_slice(cons: &mut RingConsumer, out: &mut Vec<u32>) -> (n: usize)
    ensures
        n <= old(out)@.len(),
        n < old(out)@.len() ==> n >= ready(*old(cons)),
        final(out)@.len() == old(out)@.len(),
        popped(*final(cons)) == popped(*old(cons)) + final(out)@.take(n as int),
        final(out)@.skip(n as int) == old(out)@.skip(n as int),
        ready(*final(cons)) >= ready(*old(cons)) - n,
        seen_waiting(*final(cons)) == seen_waiting(*old(cons)),
{
    ringbuf::traits::Consumer::pop_slice(&mut cons.end, out)
}

/// `n` samples of silence.
pub open spec fn silence(n: nat) -> Seq<u32> {
    Seq::new(n, |i: int| 0u32)
}

/// Samples of silence to insert when `occupied` samples are in the output ring, `queued` more are
/// ready to follow and `vacant` places are free: what is missing to a full cushion, once the
/// ring has fallen below the low-water mark.
pub open spec fn deficit_of(occupied: nat, queued: nat, vacant: nat) -> nat {
    let missing = OUTPUT_PREFILL_FRAMES * FRAME_SIZE - occupied - queued;
    if occupied >= OUTPUT_LOW_WATER_FRAMES * FRAME_SIZE || missing <= 0 {
        0
    } else if missing <= vacant {
        missing as nat
    } else {
        vacant
    }
}

/// The cushion comes back: once the ring has fallen below the low-water mark, what is in it, what
/// is queued and the silence put in between are at least a full cushion, and no more than that where
/// any silence was put in.
pub proof fn lemma_cushion_restored(occupied: nat, queued: nat, vacant: nat)
    requires
        occupied < OUTPUT_LOW_WATER_FRAMES * FRAME_SIZE,
        vacant >= OUTPUT_PREFILL_FRAMES * FRAME_SIZE,
    ensures
        occupied + queued + deficit_of(occupied, queued, vacant) >= OUTPUT_PREFILL_FRAMES
            * FRAME_SIZE,
        deficit_of(occupied, queued, vacant) > 0 ==> occupied + queued + deficit_of(
            occupied,
            queued,
            vacant,
        ) == OUTPUT_PREFILL_FRAMES * FRAME_SIZE,
{
}

/// Silence is inserted only when the ring has run low, and then just as much as is missing: with two
/// frames or more in the ring there is none; below that it is what three frames lack beyond the samples in
/// the ring and those queued, as far as there is room.
pub proof fn lemma_silence_only_when_low(occupied: nat, queued: nat, vacant: nat)
    ensures
        occupied >= 1920 ==> deficit_of(occupied, queued, vacant) == 0,
        occupied + queued >= 2880 ==> deficit_of(occupied, queued, vacant) == 0,
        occupied < 1920 && occupied + queued < 2880 && 2880 - occupied - queued <= vacant
            ==> deficit_of(occupied, queued, vacant) == 2880 - occupied - queued,
        occupied < 1920 && occupied + queued < 2880 && 2880 - occupied - queued > vacant
            ==> deficit_of(occupied, queued, vacant) == vacant,
{
}

/// The lesser of two counts.
pub open spec fn least(a: nat, b: nat) -> nat {
    if a <= b {
        a
    } else {
        b
    }
}

/// A ring for one device stream.
pub fn open_ring(capacity: usize) -> (ends: (RingProducer, RingConsumer))
    requires
        0 < capacity <= RINGBUF_CAP,
    ensures
        pushed(ends.0) == Seq::<u32>::empty(),
        room(ends.0) == capacity,
        places(ends.0) == capacity,
        seen_unread(ends.0) == Seq::<nat>::empty(),
        seen_free(ends.0) == Seq::<nat>::empty(),
        popped(ends.1) == Seq::<u32>::empty(),
        ready(ends.1) == 0,
        seen_waiting(ends.1) == Seq::<nat>::empty(),
{
    new_ring(capacity)
}

/// `n` samples of silence, ready to be written.
fn silent_samples(n: usize) -> (samples: Vec<u32>)
    ensures
        samples@ == silence(n as nat),
{
    let mut samples: Vec<u32> = Vec::with_capacity(n);
    while samples.len() < n
        invariant
            samples@.len() <= n,
            samples@ == silence(samples@.len()),
        decreases n - samples@.len(),
    {
        samples.push(0);
        assert(samples@ =~= silence(samples@.len()));
    }
    samples
}

/// Fills a fresh output ring with the jitter cushion. All of the cushion fits into a ring with
/// that many free places.
pub fn prefill(prod: &mut RingProducer)
    requires
        room(*old(prod)) >= OUTPUT_PREFILL_FRAMES * FRAME_SIZE,
    ensures
        pushed(*final(prod)) == pushed(*old(prod)) + silence(
            (OUTPUT_PREFILL_FRAMES * FRAME_SIZE) as nat,
        ),
        places(*final(prod)) == places(*old(prod)),
        room(*final(prod)) >= room(*old(prod)) - OUTPUT_PREFILL_FRAMES * FRAME_SIZE,
        asked_nothing(*old(prod), *final(prod)),
{
    let cushion = silent_samples(OUTPUT_PREFILL_FRAMES * FRAME_SIZE);
    let n: usize = push_slice(prod, &cushion);
    assert(cushion@.take(n as int) =~= cushion@);
}

/// The input callback: writes captured samples into the ring, and returns how many did not fit.
pub fn feed(prod: &mut RingProducer, captured: &[u32]) -> (dropped: usize)
    ensures
        dropped <= captured@.len(),
        dropped > 0 ==> captured@.len() - dropped >= room(*old(prod)),
        pushed(*final(prod)) == pushed(*old(prod)) + captured@.take(captured@.len() - dropped),
        places(*final(prod)) == places(*old(prod)),
        room(*final(prod)) >= room(*old(prod)) - (captured@.len() - dropped),
        asked_nothing(*old(prod), *final(prod)),
{
    let n: usize = push_slice(prod, captured);
    captured.len() - n
}

/// The output callback: fills `out` from the ring, and with silence where the ring runs short.
/// Returns how many samples came from the ring.
pub fn play(cons: &mut RingConsumer, out: &mut Vec<u32>) -> (n: usize)
    ensures
        n <= old(out)@.len(),
        n < old(out)@.len() ==> n >= ready(*old(cons)),
        final(out)@.len() == old(out)@.len(),
        popped(*final(cons)) == popped(*old(cons)) + final(out)@.take(n as int),
        final(out)@.skip(n as int) == silence((old(out)@.len() - n) as nat),
        ready(*final(cons)) >= ready(*old(cons)) - n,
        seen_waiting(*final(cons)) == seen_waiting(*old(cons)),
{
    let n: usize = pop_slice(cons, out);
    let ghost taken = out@.take(n as int);
    let len: usize = out.len();
    let mut i: usize = n;
    while i < len
        invariant
            n <= i <= len,
            len == out@.len(),
            out@.take(n as int) == taken,
            forall|j: int| n <= j < i ==> out@[j] == 0,
        decreases len - i,
    {
        out.set(i, 0);
        assert(out@.take(n as int) =~= taken);
        i += 1;
    }
    assert(out@.skip(n as int) =~= silence((len - n) as nat));
    n
}

/// Moves the samples that it finds waiting from the input ring to the end of `audio_in`, at most as many
/// as `temp_buf` holds. `temp_buf` is scratch space of fixed size.
pub fn pump_input(cons: &mut RingConsumer, audio_in: &mut AudioBuf<u32>, temp_buf: &mut Vec<u32>)
    requires
        old(audio_in).wf(),
    ensures
        final(audio_in).wf(),
        final(temp_buf)@.len() == old(temp_buf)@.len(),
        exists|waiting: nat|
            {
                &&& waiting >= ready(*old(cons))
                &&& #[trigger] moved_in(
                    *old(cons),
                    *final(cons),
                    old(audio_in)@,
                    final(audio_in)@,
                    waiting,
                    old(temp_buf)@.len(),
                )
            },
{
    let avail: usize = occupied_len(cons);
    let cap: usize = temp_buf.len();
    if avail == 0 {
        assert(audio_in@ =~= audio_in@ + Seq::<u32>::empty());
        assert(popped(*cons) =~= popped(*old(cons)) + Seq::<u32>::empty());
        assert(moved_in(*old(cons), *cons, old(audio_in)@, audio_in@, 0, old(temp_buf)@.len()));
        return;
    }
    let want: usize = if avail < cap {
        avail
    } else {
        cap
    };
    let mut rest = temp_buf.split_off(want);
    let n: usize = pop_slice(cons, temp_buf);
    assert(temp_buf@.take(n as int) =~= temp_buf@);
    audio_in.extend(temp_buf);
    proof {
        let fresh = temp_buf@;
        assert(popped(*cons) == popped(*old(cons)) + fresh);
        assert(popped(*cons).skip(popped(*old(cons)).len() as int) =~= fresh);
        assert(moved_in(
            *old(cons),
            *cons,
            old(audio_in)@,
            audio_in@,
            avail as nat,
            old(temp_buf)@.len(),
        ));
    }
    temp_buf.append(&mut rest);
}

/// The ring was asked, and answered that `waiting` samples wait; as many, but `most` at most, left it
/// and were appended, in order, to a buffer.
pub open spec fn moved_in(
    cons0: RingConsumer,
    cons: RingConsumer,
    buf0: Seq<u32>,
    buf: Seq<u32>,
    waiting: nat,
    most: nat,
) -> bool {
    let fresh = popped(cons).skip(popped(cons0).len() as int);
    &&& seen_waiting(cons) == seen_waiting(cons0).push(waiting)
    &&& fresh.len() == least(waiting, most)
    &&& popped(cons) == popped(cons0) + fresh
    &&& buf == buf0 + fresh
}

/// What [`push_queued`] does where the ring answers that `space` places are free: the oldest queued
/// samples are written as far as they fit; they leave the queue, and nothing is lost. The ring is asked
/// only where something is queued.
pub open spec fn moved_out(
    prod0: RingProducer,
    prod: RingProducer,
    buf0: Seq<u32>,
    buf: Seq<u32>,
    space: nat,
) -> bool {
    let n = least(buf0.len(), space) as int;
    &&& pushed(prod) == pushed(prod0) + buf0.take(n)
    &&& buf == buf0.skip(n)
    &&& seen_unread(prod) == seen_unread(prod0)
    &&& seen_free(prod) == free_after(seen_free(prod0), buf0.len(), space)
}

/// The answers about free places after one more where something is queued.
pub open spec fn free_after(seen: Seq<nat>, queued: nat, space: nat) -> Seq<nat> {
    if queued > 0 {
        seen.push(space)
    } else {
        seen
    }
}

/// Moves queued samples from the front of `audio_out` to the output ring, as far as they fit.
pub fn push_queued(prod: &mut RingProducer, audio_out: &mut AudioBuf<u32>)
    requires
        old(audio_out).wf(),
    ensures
        final(audio_out).wf(),
        places(*final(prod)) == places(*old(prod)),
        exists|space: nat|
            {
                &&& space >= room(*old(prod))
                &&& #[trigger] moved_out(
                    *old(prod),
                    *final(prod),
                    old(audio_out)@,
                    final(audio_out)@,
                    space,
                )
            },
{
    let out_avail: usize = audio_out.len();
    if out_avail == 0 {
        assert(pushed(*prod) =~= pushed(*old(prod)) + old(audio_out)@.take(0));
        assert(audio_out@ =~= old(audio_out)@.skip(0));
        assert(moved_out(*old(prod), *prod, old(audio_out)@, audio_out@, room(*prod)));
        return;
    }
    let space: usize = vacant_len(prod);
    let n: usize = if out_avail < space {
        out_avail
    } else {
        space
    };
    if n > 0 {
        let chunk = audio_out.take_available(n);
        let written: usize = push_slice(prod, &chunk);
        assert(chunk@.take(written as int) =~= chunk@);
        assert(chunk@ =~= old(audio_out)@.take(n as int));
        assert(audio_out@ =~= old(audio_out)@.skip(n as int));
    } else {
        assert(pushed(*prod) =~= pushed(*old(prod)) + old(audio_out)@.take(0));
        assert(audio_out@ =~= old(audio_out)@.skip(0));
    }
    assert(moved_out(*old(prod), *prod, old(audio_out)@, audio_out@, space as nat));
}

/// What [`top_up`] does with `occupied` samples in the ring and `vacant` free places before, where the
/// ring answers that `space` places are free after topping up: the missing cushion is written first, then
/// the oldest queued samples as far as they fit; they leave the queue, and nothing is lost.
pub open spec fn cushioned_out(
    prod0: RingProducer,
    prod: RingProducer,
    buf0: Seq<u32>,
    buf: Seq<u32>,
    occupied: nat,
    vacant: nat,
    space: nat,
) -> bool {
    let n = least(buf0.len(), space) as int;
    &&& pushed(prod) == pushed(prod0) + silence(deficit_of(occupied, buf0.len(), vacant))
        + buf0.take(n)
    &&& buf == buf0.skip(n)
    &&& space >= vacant - deficit_of(occupied, buf0.len(), vacant)
}

/// What [`pump_output`] does where the ring answers that `occupied` samples are in it, and that `vacant`
/// places are free before and `space` places after topping up.
pub open spec fn pumped_out(
    prod0: RingProducer,
    prod: RingProducer,
    buf0: Seq<u32>,
    buf: Seq<u32>,
    occupied: nat,
    vacant: nat,
    space: nat,
) -> bool {
    &&& seen_unread(prod) == seen_unread(prod0).push(occupied)
    &&& seen_free(prod) == free_after(seen_free(prod0).push(vacant), buf0.len(), space)
    &&& cushioned_out(prod0, prod, buf0, buf, occupied, vacant, space)
}

/// Moves queued samples from the front of `audio_out` to the output ring, as far as they fit, and
/// tops the cushion up first, given what is in the ring and which places are known to be free.
pub fn top_up(
    prod: &mut RingProducer,
    audio_out: &mut AudioBuf<u32>,
    occupied: usize,
    vacant: usize,
)
    requires
        old(audio_out).wf(),
        vacant == room(*old(prod)),
    ensures
        final(audio_out).wf(),
        places(*final(prod)) == places(*old(prod)),
        seen_unread(*final(prod)) == seen_unread(*old(prod)),
        exists|space: nat|
            {
                &&& seen_free(*final(prod)) == free_after(
                    seen_free(*old(prod)),
                    old(audio_out)@.len(),
                    space,
                )
                &&& #[trigger] cushioned_out(
                    *old(prod),
                    *final(prod),
                    old(audio_out)@,
                    final(audio_out)@,
                    occupied as nat,
                    vacant as nat,
                    space,
                )
            },
{
    let deficit: usize = cushion_deficit(occupied, audio_out.len(), vacant);
    if deficit > 0 {
        let gap = silent_samples(deficit);
        let n: usize = push_slice(prod, &gap);
        assert(gap@.take(n as int) =~= gap@);
    }
    assert(pushed(*prod) =~= pushed(*old(prod)) + silence(deficit as nat));
    let ghost mid = *prod;
    push_queued(prod, audio_out);
    proof {
        let space = choose|space: nat|
            space >= room(mid) && #[trigger] moved_out(
                mid,
                *prod,
                old(audio_out)@,
                audio_out@,
                space,
            );
        assert(cushioned_out(
            *old(prod),
            *prod,
            old(audio_out)@,
            audio_out@,
            occupied as nat,
            vacant as nat,
            space,
        ));
    }
}

/// Moves queued samples from the front of `audio_out` to the output ring, as far as they fit, and
/// tops the cushion up first when the ring answers that it has run dry.
pub fn pump_output(prod: &mut RingProducer, audio_out: &mut AudioBuf<u32>)
    requires
        old(audio_out).wf(),
    ensures
        final(audio_out).wf(),
        places(*final(prod)) == places(*old(prod)),
        exists|occupied: nat, vacant: nat, space: nat|
            {
                &&& occupied <= pushed(*old(prod)).len()
                &&& occupied + room(*old(prod)) <= places(*old(prod))
                &&& room(*old(prod)) <= vacant <= places(*old(prod))
                &&& #[trigger] pumped_out(
                    *old(prod),
                    *final(prod),
                    old(audio_out)@,
                    final(audio_out)@,
                    occupied,
                    vacant,
                    space,
                )
            },
{
    let occupied: usize = unread_len(prod);
    let vacant: usize = vacant_len(prod);
    let ghost mid = *prod;
    top_up(prod, audio_out, occupied, vacant);
    proof {
        let space = choose|space: nat|
            {
                &&& seen_free(*prod) == free_after(seen_free(mid), old(audio_out)@.len(), space)
                &&& #[trigger] cushioned_out(
                    mid,
                    *prod,
                    old(audio_out)@,
                    audio_out@,
                    occupied as nat,
                    vacant as nat,
                    space,
                )
            };
        assert(pumped_out(
            *old(prod),
            *prod,
            old(audio_out)@,
            audio_out@,
            occupied as nat,
            vacant as nat,
            space,
        ));
    }
}

/// How many samples of silence the output ring needs before more audio is written to it.
pub fn cushion_deficit(occupied: usize, queued: usize, vacant: usize) -> (deficit: usize)
    ensures
        deficit == deficit_of(occupied as nat, queued as nat, vacant as nat),
        deficit <= vacant,
        occupied >= OUTPUT_LOW_WATER_FRAMES * FRAME_SIZE ==> deficit == 0,
        deficit > 0 ==> occupied + queued + deficit <= OUTPUT_PREFILL_FRAMES * FRAME_SIZE,
{
    if occupied >= OUTPUT_LOW_WATER_FRAMES * FRAME_SIZE {
        return 0;
    }
    let target: usize = OUTPUT_PREFILL_FRAMES * FRAME_SIZE;
    let missing: usize = target.saturating_sub(occupied).saturating_sub(queued);
    if missing < vacant {
        missing
    } else {
        vacant
    }
}

/// While two frames or more are in the ring, a pass of the output pump writes queued audio and nothing else:
/// the oldest samples, as many as fit, in their order. What is written and what stays is what was queued.
pub proof fn lemma_filled_ring_gets_audio_alone(
    prod0: RingProducer,
    prod: RingProducer,
    buf0: Seq<u32>,
    buf: Seq<u32>,
    occupied: nat,
    vacant: nat,
    space: nat,
)
    requires
        pumped_out(prod0, prod, buf0, buf, occupied, vacant, space),
        occupied >= 1920,
    ensures
        pushed(prod) + buf == pushed(prod0) + buf0,
        pushed(prod).len() == pushed(prod0).len() + (if buf0.len() <= space {
            buf0.len()
        } else {
            space
        }),
        space >= vacant,
{
    assert(silence(deficit_of(occupied, buf0.len(), vacant)) =~= Seq::<u32>::empty());
    assert(pushed(prod) + buf =~= pushed(prod0) + buf0);
}

/// Whatever a pass of the output pump does, no queued sample is lost or moved: what it writes is zeros, at
/// most three frames of them, followed by the front of the queue, and the rest of the queue stays.
pub proof fn lemma_pump_loses_nothing(
    prod0: RingProducer,
    prod: RingProducer,
    buf0: Seq<u32>,
    buf: Seq<u32>,
    occupied: nat,
    vacant: nat,
    space: nat,
)
    requires
        pumped_out(prod0, prod, buf0, buf, occupied, vacant, space),
    ensures
        ({
            let gap = pushed(prod).len() + buf.len() - pushed(prod0).len() - buf0.len();
            &&& 0 <= gap <= 2880
            &&& gap <= vacant
            &&& pushed(prod) + buf == pushed(prod0) + Seq::new(gap as nat, |i: int| 0u32) + buf0
        }),
{
    let gap = deficit_of(occupied, buf0.len(), vacant);
    assert(silence(gap) =~= Seq::new(gap, |i: int| 0u32));
    assert(pushed(prod) + buf =~= pushed(prod0) + silence(gap) + buf0);
}

/// What the input pump moves is what left the ring, in order, and no more than waited or than is asked for.
pub proof fn lemma_input_moves_in_order(
    cons0: RingConsumer,
    cons: RingConsumer,
    buf0: Seq<u32>,
    buf: Seq<u32>,
    waiting: nat,
    most: nat,
)
    requires
        moved_in(cons0, cons, buf0, buf, waiting, most),
    ensures
        ({
            let n = buf.len() - buf0.len();
            &&& n == (if waiting <= most {
                waiting
            } else {
                most
            })
            &&& buf.take(buf0.len() as int) == buf0
            &&& popped(cons) == popped(cons0) + buf.skip(buf0.len() as int)
        }),
{
    let fresh = popped(cons).skip(popped(cons0).len() as int);
    assert(buf.take(buf0.len() as int) =~= buf0);
    assert(buf.skip(buf0.len() as int) =~= fresh);
}

/// What moves out of a buffer keeps its order, nothing is lost, and as much moves as there is room for.
pub proof fn lemma_output_moves_in_order(
    prod0: RingProducer,
    prod: RingProducer,
    buf0: Seq<u32>,
    buf: Seq<u32>,
    space: nat,
)
    requires
        moved_out(prod0, prod, buf0, buf, space),
    ensures
        pushed(prod) + buf == pushed(prod0) + buf0,
        buf0.len() <= space ==> buf.len() == 0,
        buf0.len() > space ==> buf.len() == buf0.len() - space,
{
    let n = least(buf0.len(), space) as int;
    assert(pushed(prod) + buf =~= pushed(prod0) + buf0);
}

/// When a ring is asked for room: only where something waits for it.
pub proof fn lemma_asked_only_when_needed(seen: Seq<nat>, queued: nat, space: nat)
    ensures
        free_after(seen, 0, space) == seen,
        queued > 0 ==> free_after(seen, queued, space).len() == seen.len() + 1 && free_after(
            seen,
            queued,
            space,
        ).last() == space && seen.is_prefix_of(free_after(seen, queued, space)),
{
}

/// Silence takes room from the audio behind it, and no more than it fills: at least as much is left as was
/// free without it.
pub proof fn lemma_silence_takes_its_own_room(
    prod0: RingProducer,
    prod: RingProducer,
    buf0: Seq<u32>,
    buf: Seq<u32>,
    occupied: nat,
    vacant: nat,
    space: nat,
)
    requires
        cushioned_out(prod0, prod, buf0, buf, occupied, vacant, space),
    ensures
        ({
            let quiet = deficit_of(occupied, buf0.len(), vacant);
            &&& space + quiet >= vacant
            &&& pushed(prod).len() + buf.len() == pushed(prod0).len() + quiet + buf0.len()
            &&& forall|i: int|
                0 <= i < quiet ==> #[trigger] pushed(prod)[pushed(prod0).len() + i] == 0
            &&& buf0.len() <= space ==> buf.len() == 0
        }),
{
}

} // verus!
