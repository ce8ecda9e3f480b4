//! The CoreAudio filter: one chain from an input device to an output device, always open.
use vstd::prelude::*;
use std::ops::Add;

use crate::chain::{bounded, may_ask, metered, turned, Chain, ChainTurn};
use crate::chunk::{StereoChunk, CHUNK, FRAME_SIZE};
use crate::clock::{elapsed, time_since, STATUS_INTERVAL};
use crate::dsp::adds;
use crate::meter::RmsMeter;
use crate::model::Model;

verus! {

/// Samples that a device ring of this filter holds (about 85 ms).
pub const RINGBUF_CAP: usize = 8192;

/// A request from the user interface.
pub enum Cmd {
    SwitchModel(Model),
    EnumerateDevices,
    SetSink(String),
    SetSource(String),
    Shutdown,
}

/// What the caller has to do for a [`Cmd`].
pub enum CmdAction {
    /// Nothing.
    Done,
    /// Build the denoiser anew from this model.
    RebuildDenoiser(Model),
    /// Answer with the device lists.
    ReportDevices,
    /// Open the output device of this name, and report it once it is open.
    OpenSink(String),
    /// Open the input device of this name, and report it once it is open.
    OpenSource(String),
}

/// State of the filter.
pub struct CaFilter<T> {
    /// The one chain; its capture is always open.
    pub chain: Chain<T>,
    /// The filter is to stop.
    pub shutdown: bool,
    /// When the last status was reported.
    pub last_status: u64,
}

impl<T> CaFilter<T> {
    /// The chain is valid and open.
    pub open spec fn wf(&self) -> bool {
        &&& self.chain.wf()
        &&& self.chain.active
    }

    /// A filter that has seen nothing.
    pub fn new(now: u64) -> (filter: Self)
        ensures
            filter.wf(),
            filter.chain.input@.len() == 0,
            filter.chain.output@.len() == 0,
            !filter.shutdown,
            filter.last_status == now,
    {
        let mut chain = Chain::new();
        chain.open();
        CaFilter { chain, shutdown: false, last_status: now }
    }

    /// Takes a command.
    pub fn command(&mut self, cmd: Cmd) -> (action: CmdAction)
        requires
            old(self).wf(),
        ensures
            final(self).wf(),
            final(self).chain == old(self).chain,
            final(self).last_status == old(self).last_status,
            final(self).shutdown == (old(self).shutdown || cmd is Shutdown),
            action == match cmd {
                Cmd::SwitchModel(model) => CmdAction::RebuildDenoiser(model),
                Cmd::EnumerateDevices => CmdAction::ReportDevices,
                Cmd::SetSink(name) => CmdAction::OpenSink(name),
                Cmd::SetSource(name) => CmdAction::OpenSource(name),
                Cmd::Shutdown => CmdAction::Done,
            },
    {
        match cmd {
            Cmd::SwitchModel(model) => CmdAction::RebuildDenoiser(model),
            Cmd::EnumerateDevices => CmdAction::ReportDevices,
            Cmd::SetSink(name) => CmdAction::OpenSink(name),
            Cmd::SetSource(name) => CmdAction::OpenSource(name),
            Cmd::Shutdown => {
                self.shutdown = true;
                CmdAction::Done
            },
        }
    }

    /// Takes note of a new output device: what was queued for the old one is dropped.
    pub fn sink_opened(&mut self)
        requires
            old(self).wf(),
        ensures
            final(self).wf(),
            final(self).chain.output@.len() == 0,
            final(self).chain.input == old(self).chain.input,
            final(self).shutdown == old(self).shutdown,
            final(self).last_status == old(self).last_status,
    {
        self.chain.output.clear();
    }

    /// Takes note of a new input device: what came from the old one is dropped.
    pub fn source_opened(&mut self)
        requires
            old(self).wf(),
        ensures
            final(self).wf(),
            final(self).chain.input@.len() == 0,
            final(self).chain.output == old(self).chain.output,
            final(self).shutdown == old(self).shutdown,
            final(self).last_status == old(self).last_status,
    {
        self.chain.input.clear();
    }

    /// Whether a status report is due; its time is then taken as the last.
    pub fn status_due(&mut self, now: u64) -> (due: bool)
        requires
            old(self).wf(),
        ensures
            final(self).wf(),
            due == (time_since(now, old(self).last_status) >= STATUS_INTERVAL),
            final(self).last_status == if due {
                now
            } else {
                old(self).last_status
            },
            final(self).chain == old(self).chain,
            final(self).shutdown == old(self).shutdown,
    {
        let due = elapsed(now, self.last_status) >= STATUS_INTERVAL;
        if due {
            self.last_status = now;
        }
        due
    }

    /// Whether there is nothing to do until more samples arrive.
    pub fn idle(&self) -> (idle: bool)
        requires
            self.wf(),
        ensures
            idle == (self.chain.input@.len() < FRAME_SIZE && self.chain.output@.len() == 0),
    {
        self.chain.input.len() < FRAME_SIZE && self.chain.output.len() == 0
    }
}

impl<T: Copy> CaFilter<T> {
    /// One turn of the filter: the backlog is bounded, and at most one frame moves from input to output,
    /// through `denoise` where the filter is `enabled`; a frame on which the denoiser fails is passed on
    /// untouched. The meter counts the frame.
    pub fn turn<
        L: Copy + Add<Output = L>,
        E,
        F: FnOnce(&StereoChunk<T>) -> Result<StereoChunk<T>, E>,
        R: Fn(&[T; CHUNK]) -> L,
    >(&mut self, denoise: F, enabled: bool, rms: &R, meter: &mut RmsMeter<L>) -> (turn: ChainTurn<
        T,
        E,
    >)
        requires
            old(self).wf(),
            may_ask(denoise, bounded(old(self).chain.input@), !enabled, FRAME_SIZE as nat),
            adds::<L>(),
            forall|channel: &[T; CHUNK]| #[trigger] rms.requires((channel,)),
            old(meter).count <= u32::MAX - 2,
        ensures
            final(self).wf(),
            turned(old(self).chain.input@, final(self).chain.input@, denoise, enabled, turn),
            final(self).chain.output@ == old(self).chain.output@ + turn.outcome.appended(),
            metered(*old(meter), *final(meter), turn.outcome, *rms),
            final(self).shutdown == old(self).shutdown,
            final(self).last_status == old(self).last_status,
    {
        self.chain.turn(denoise, enabled, rms, meter)
    }
}

} // verus!
