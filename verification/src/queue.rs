//! Bounded queues between a real-time callback and a worker thread.
//!
//! Each thread has its own [`Port`] to a queue, and the functions here say what they put on its record:
//! which values went to the queue, and which came from it.
use vstd::prelude::*;

use crate::chunk::StereoChunk;
use crate::port::Port;

verus! {

/// Chunks that the queues of a [`Worker`] hold.
pub const QCAP: usize = 64;

/// Entries that the queues of a [`WorkerChannel`] hold.
pub const TASK_CAP: usize = 3;

/// The two queues of a worker that denoises off the real-time thread: one to it, one back.
#[verifier::reject_recursive_types(T)]
pub struct Worker<T> {
    in_q: Port<StereoChunk<T>>,
    out_q: Port<StereoChunk<T>>,
}

/// What one turn of the worker thread did.
pub enum WorkerTurn<E> {
    /// Nothing was waiting.
    Idle,
    /// A chunk was denoised; whether there was room for the result.
    Denoised(bool),
    /// The denoiser failed; the chunk is lost.
    Failed(E),
}

/// What the worker makes of what it fetched: nothing of nothing, else the denoiser's answer.
pub fn denoise_fetched<T, E, F: FnOnce(&StereoChunk<T>) -> Result<StereoChunk<T>, E>>(
    fetched: Option<StereoChunk<T>>,
    denoise: F,
) -> (answer: Option<Result<StereoChunk<T>, E>>)
    requires
        fetched matches Some(chunk) ==> denoise.requires((&chunk,)),
    ensures
        answer is Some <==> fetched is Some,
        answer matches Some(a) ==> denoise.ensures((&fetched->Some_0,), a),
{
    match fetched {
        Some(chunk) => Some(denoise(&chunk)),
        None => None,
    }
}

impl<T> Worker<T> {
    /// The queue to the worker and the queue back that this is a hold on.
    pub closed spec fn queues(&self) -> (
        crossbeam_queue::ArrayQueue<StereoChunk<T>>,
        crossbeam_queue::ArrayQueue<StereoChunk<T>>,
    ) {
        (self.in_q.queue(), self.out_q.queue())
    }

    /// How many chunks the queue to the worker and the queue back hold at most.
    pub closed spec fn capacities(&self) -> (nat, nat) {
        (self.in_q.capacity(), self.out_q.capacity())
    }

    /// Chunks that were handed to the worker through this hold, and whether there was room.
    pub closed spec fn sent(&self) -> Seq<(StereoChunk<T>, bool)> {
        self.in_q.offered()
    }

    /// The answer to every request for a denoised chunk.
    pub closed spec fn received(&self) -> Seq<Option<StereoChunk<T>>> {
        self.out_q.answered()
    }

    /// The answer to every request for a chunk to denoise.
    pub closed spec fn fetched(&self) -> Seq<Option<StereoChunk<T>>> {
        self.in_q.answered()
    }

    /// Denoised chunks that were handed back, and whether there was room.
    pub closed spec fn returned(&self) -> Seq<(StereoChunk<T>, bool)> {
        self.out_q.offered()
    }

    /// Nothing has passed through this hold yet.
    pub open spec fn fresh(&self) -> bool {
        &&& self.sent().len() == 0
        &&& self.received().len() == 0
        &&& self.fetched().len() == 0
        &&& self.returned().len() == 0
    }

    /// Two empty queues.
    pub fn new() -> (worker: Self)
        ensures
            worker.capacities() == (QCAP as nat, QCAP as nat),
            worker.fresh(),
    {
        Worker { in_q: Port::new(QCAP), out_q: Port::new(QCAP) }
    }

    /// The same queues, for the other thread.
    pub fn share(&self) -> (other: Self)
        ensures
            other.queues() == self.queues(),
            other.capacities() == self.capacities(),
            other.fresh(),
    {
        Worker { in_q: self.in_q.share(), out_q: self.out_q.share() }
    }

    /// Hands a chunk to the worker; it is given back where the queue is full.
    pub fn send(&mut self, chunk: StereoChunk<T>) -> (refused: Option<StereoChunk<T>>)
        ensures
            final(self).queues() == old(self).queues(),
            final(self).capacities() == old(self).capacities(),
            refused matches Some(back) ==> back == chunk,
            final(self).sent() == old(self).sent().push((chunk, refused is None)),
            final(self).received() == old(self).received(),
            final(self).fetched() == old(self).fetched(),
            final(self).returned() == old(self).returned(),
    {
        self.in_q.offer(chunk)
    }

    /// Takes a denoised chunk, if one is ready.
    pub fn recv(&mut self) -> (chunk: Option<StereoChunk<T>>)
        ensures
            final(self).queues() == old(self).queues(),
            final(self).capacities() == old(self).capacities(),
            final(self).received() == old(self).received().push(chunk),
            final(self).sent() == old(self).sent(),
            final(self).fetched() == old(self).fetched(),
            final(self).returned() == old(self).returned(),
    {
        self.out_q.take()
    }

    /// One turn of the worker thread: the oldest chunk, if there is one, is denoised and handed back.
    pub fn turn<E, F: FnOnce(&StereoChunk<T>) -> Result<StereoChunk<T>, E>>(
        &mut self,
        denoise: F,
    ) -> (turn: WorkerTurn<E>)
        requires
            forall|chunk: &StereoChunk<T>| #[trigger] denoise.requires((chunk,)),
        ensures
            final(self).queues() == old(self).queues(),
            final(self).capacities() == old(self).capacities(),
            final(self).sent() == old(self).sent(),
            final(self).received() == old(self).received(),
            final(self).fetched().len() == old(self).fetched().len() + 1,
            final(self).fetched().drop_last() == old(self).fetched(),
            turn is Idle <==> final(self).fetched().last() is None,
            match turn {
                WorkerTurn::Idle => final(self).returned() == old(self).returned(),
                WorkerTurn::Denoised(room) => exists|output: StereoChunk<T>|
                    {
                        &&& #[trigger] denoise.ensures(
                            (&final(self).fetched().last()->Some_0,),
                            Ok(output),
                        )
                        &&& final(self).returned() == old(self).returned().push((output, room))
                    },
                WorkerTurn::Failed(error) => {
                    &&& denoise.ensures((&final(self).fetched().last()->Some_0,), Err(error))
                    &&& final(self).returned() == old(self).returned()
                },
            },
    {
        let waiting = self.in_q.take();
        assert(self.fetched().drop_last() =~= old(self).fetched());
        match denoise_fetched(waiting, denoise) {
            None => WorkerTurn::Idle,
            Some(Ok(output)) => {
                let room = self.out_q.offer(output).is_none();
                WorkerTurn::Denoised(room)
            },
            Some(Err(error)) => WorkerTurn::Failed(error),
        }
    }

    /// Takes one stale chunk out of each queue. Returns whether there may be more.
    pub fn discard(&mut self) -> (more: bool)
        ensures
            final(self).queues() == old(self).queues(),
            final(self).capacities() == old(self).capacities(),
            final(self).sent() == old(self).sent(),
            final(self).returned() == old(self).returned(),
            final(self).fetched().len() == old(self).fetched().len() + 1,
            final(self).fetched().drop_last() == old(self).fetched(),
            final(self).received().len() == old(self).received().len() + 1,
            final(self).received().drop_last() == old(self).received(),
            more == (final(self).fetched().last() is Some || final(
                self).received().last() is Some),
    {
        let a = self.in_q.take().is_some();
        let b = self.out_q.take().is_some();
        assert(self.fetched().drop_last() =~= old(self).fetched());
        assert(self.received().drop_last() =~= old(self).received());
        a || b
    }
}

/// Spectra to be run through the network in one batch.
pub struct GpuTask<T> {
    pub spec_real: Vec<Vec<T>>,
    pub spec_imag: Vec<Vec<T>>,
    pub num_frames: usize,
}

/// What the network made of a batch.
pub struct GpuResponse<T> {
    pub erb_mask: Vec<T>,
    pub df_coefs: Vec<T>,
    pub processed_frames: usize,
}

/// What the worker makes of a batch that it fetched: nothing of nothing, else what the network makes of
/// it, with the number of frames in it.
pub fn run_fetched<T, E, F: FnOnce(&GpuTask<T>) -> Result<(Vec<T>, Vec<T>), E>>(
    fetched: Option<GpuTask<T>>,
    run: F,
) -> (answer: Option<Result<GpuResponse<T>, E>>)
    requires
        fetched matches Some(task) ==> run.requires((&task,)),
    ensures
        match answer {
            None => fetched is None,
            Some(Ok(r)) => fetched is Some && run.ensures(
                (&fetched->Some_0,),
                Ok((r.erb_mask, r.df_coefs)),
            ) && r.processed_frames == fetched->Some_0.num_frames,
            Some(Err(error)) => fetched is Some && run.ensures((&fetched->Some_0,), Err(error)),
        },
{
    match fetched {
        Some(task) => match run(&task) {
            Ok(out) => {
                let (erb_mask, df_coefs) = out;
                Some(Ok(GpuResponse { erb_mask, df_coefs, processed_frames: task.num_frames }))
            },
            Err(error) => Some(Err(error)),
        },
        None => None,
    }
}

/// The two queues of a worker that runs the network on batches. Where one is full, the oldest entry
/// makes room: old spectra are worth less than new ones.
#[verifier::reject_recursive_types(T)]
pub struct WorkerChannel<T> {
    requests: Port<GpuTask<T>>,
    responses: Port<GpuResponse<T>>,
}

impl<T> WorkerChannel<T> {
    /// The queue of batches and the queue of results that this is a hold on.
    pub closed spec fn queues(&self) -> (
        crossbeam_queue::ArrayQueue<GpuTask<T>>,
        crossbeam_queue::ArrayQueue<GpuResponse<T>>,
    ) {
        (self.requests.queue(), self.responses.queue())
    }

    /// How many batches and how many results the queues hold at most.
    pub closed spec fn capacities(&self) -> (nat, nat) {
        (self.requests.capacity(), self.responses.capacity())
    }

    /// Batches that were handed to the worker through this hold.
    pub closed spec fn sent(&self) -> Seq<(GpuTask<T>, bool)> {
        self.requests.offered()
    }

    /// The answer to every request for a result.
    pub closed spec fn received(&self) -> Seq<Option<GpuResponse<T>>> {
        self.responses.answered()
    }

    /// The answer to every request for a batch to run.
    pub closed spec fn fetched(&self) -> Seq<Option<GpuTask<T>>> {
        self.requests.answered()
    }

    /// Results that were handed back.
    pub closed spec fn returned(&self) -> Seq<(GpuResponse<T>, bool)> {
        self.responses.offered()
    }

    /// Nothing has passed through this hold yet.
    pub open spec fn fresh(&self) -> bool {
        &&& self.sent().len() == 0
        &&& self.received().len() == 0
        &&& self.fetched().len() == 0
        &&& self.returned().len() == 0
    }

    /// Two empty queues.
    pub fn new() -> (channel: Self)
        ensures
            channel.capacities() == (TASK_CAP as nat, TASK_CAP as nat),
            channel.fresh(),
    {
        WorkerChannel { requests: Port::new(TASK_CAP), responses: Port::new(TASK_CAP) }
    }

    /// The same queues, for the other thread.
    pub fn share(&self) -> (other: Self)
        ensures
            other.queues() == self.queues(),
            other.capacities() == self.capacities(),
            other.fresh(),
    {
        WorkerChannel { requests: self.requests.share(), responses: self.responses.share() }
    }

    /// Hands a batch to the worker. Returns the batch that had to make room.
    pub fn try_send(&mut self, task: GpuTask<T>) -> (displaced: Option<GpuTask<T>>)
        ensures
            final(self).queues() == old(self).queues(),
            final(self).capacities() == old(self).capacities(),
            final(self).sent() == old(self).sent().push((task, true)),
            final(self).received() == old(self).received(),
            final(self).fetched() == old(self).fetched(),
            final(self).returned() == old(self).returned(),
    {
        self.requests.force(task)
    }

    /// Takes a result, if one is ready.
    pub fn try_recv(&mut self) -> (response: Option<GpuResponse<T>>)
        ensures
            final(self).queues() == old(self).queues(),
            final(self).capacities() == old(self).capacities(),
            final(self).received() == old(self).received().push(response),
            final(self).sent() == old(self).sent(),
            final(self).fetched() == old(self).fetched(),
            final(self).returned() == old(self).returned(),
    {
        self.responses.take()
    }

    /// One turn of the worker thread: the oldest batch, if there is one, is run and its result handed
    /// back. Returns the number of frames in it, or what went wrong.
    pub fn turn<E, F: FnOnce(&GpuTask<T>) -> Result<(Vec<T>, Vec<T>), E>>(
        &mut self,
        run: F,
    ) -> (turn: Option<Result<usize, E>>)
        requires
            forall|task: &GpuTask<T>| #[trigger] run.requires((task,)),
        ensures
            final(self).queues() == old(self).queues(),
            final(self).capacities() == old(self).capacities(),
            final(self).sent() == old(self).sent(),
            final(self).received() == old(self).received(),
            final(self).fetched().len() == old(self).fetched().len() + 1,
            final(self).fetched().drop_last() == old(self).fetched(),
            turn is None <==> final(self).fetched().last() is None,
            match turn {
                None => final(self).returned() == old(self).returned(),
                Some(Ok(n)) => exists|r: GpuResponse<T>|
                    {
                        &&& run.ensures(
                            (&final(self).fetched().last()->Some_0,),
                            Ok((r.erb_mask, r.df_coefs)),
                        )
                        &&& n == r.processed_frames
                        &&& n == final(self).fetched().last()->Some_0.num_frames
                        &&& final(self).returned() == #[trigger] old(self).returned().push((r, true))
                    },
                Some(Err(error)) => {
                    &&& run.ensures((&final(self).fetched().last()->Some_0,), Err(error))
                    &&& final(self).returned() == old(self).returned()
                },
            },
    {
        let waiting = self.requests.take();
        assert(self.fetched().drop_last() =~= old(self).fetched());
        match run_fetched(waiting, run) {
            None => None,
            Some(Ok(response)) => {
                let n: usize = response.processed_frames;
                let ghost r = response;
                let displaced = self.responses.force(response);
                assert(self.returned() == old(self).returned().push((r, true)));
                Some(Ok(n))
            },
            Some(Err(error)) => Some(Err(error)),
        }
    }
}

} // verus!
