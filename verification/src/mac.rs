//! The macOS engine: two chains around a BlackHole loopback device, opened on demand.
//!
//! The recording chain takes the microphone to BlackHole, the playback chain takes BlackHole to
//! the speakers. Each runs only while another process uses its side of BlackHole, so that the
//! system does not report a recording that nobody asked for.
use vstd::prelude::*;
use std::ops::Add;

use crate::chain::{metered, turned, Chain, ChainTurn};
use crate::chunk::{StereoChunk, CHUNK, FRAME_SIZE};
use crate::clock::{elapsed, time_since, NANOS_PER_MILLI, NANOS_PER_SEC, STATUS_INTERVAL};
use crate::dsp::adds;
use crate::meter::RmsMeter;
use crate::ring::{
    moved_in, places, pump_input, pump_output, pumped_out, pushed, ready, room,
    RingConsumer, RingProducer,
};
use crate::text::text_of;

verus! {

/// Time between two checks for processes on BlackHole.
pub const LISTENER_POLL_INTERVAL: u64 = 500 * NANOS_PER_MILLI;

/// A request from the user interface.
pub enum Cmd {
    SetSink(String),
    SetSource(String),
    /// Bypass both chains, or neither.
    SetBypass(bool),
    SetPlaybackBypass(bool),
    SetRecordingBypass(bool),
    SetMicCapture(bool),
    EnumerateDevices,
    Shutdown,
}

/// What the caller has to do with the streams of a chain.
#[derive(Clone, Copy, Debug, PartialEq, Eq, Structural)]
pub enum StreamAction {
    /// Nothing.
    Keep,
    /// Open them, and report whether that worked.
    Start,
    /// Drop them, open them anew, and report whether that worked.
    Restart,
    /// Drop them; the chain was emptied, and its levels start anew.
    Stop,
}

/// What the caller has to do for a [`Cmd`].
#[derive(Clone, Copy, Debug, PartialEq, Eq, Structural)]
pub enum CmdAction {
    /// Nothing.
    Done,
    /// Act on the streams of the playback chain.
    Playback(StreamAction),
    /// Act on the streams of the recording chain.
    Recording(StreamAction),
    /// Answer with the device lists.
    ReportDevices,
}

/// What is known of the devices when the engine starts.
#[derive(Clone, Copy, Debug, PartialEq, Eq, Structural)]
pub struct ChainPlan {
    /// There is a BlackHole input for the playback chain to read.
    pub has_playback: bool,
    /// Both chains would use one and the same BlackHole device.
    pub shared: bool,
    /// The recording chain follows the processes that capture from BlackHole.
    pub auto_capture: bool,
    /// The playback chain follows the processes that play to BlackHole.
    pub auto_playback: bool,
}

/// What the user is told about demand detection.
#[derive(Clone, Copy, Debug, PartialEq, Eq, Structural)]
pub enum DetectionNote {
    /// Chains open on demand.
    Active,
    /// The system is too old; the microphone is manual and the playback chain stays off.
    Unavailable,
    /// There is no BlackHole device; the microphone is manual.
    NoDevice,
}

/// The plan for these devices: the names of the BlackHole devices that the playback chain reads
/// and the recording chain writes, where there are any, whether each is known to the system by an
/// id, and whether the system reports which processes use a device.
pub open spec fn plan_of(
    bh_input: Option<Seq<char>>,
    bh_output: Option<Seq<char>>,
    playback_id: bool,
    recording_id: bool,
    detection: bool,
) -> ChainPlan {
    ChainPlan {
        has_playback: bh_input is Some,
        shared: bh_input is Some && bh_output is Some && bh_input == bh_output,
        auto_capture: recording_id && detection,
        auto_playback: playback_id && detection,
    }
}

/// Decides how the chains will be run with these devices.
pub fn plan_chains(
    bh_input: &Option<String>,
    bh_output: &Option<String>,
    playback_id: Option<u32>,
    recording_id: Option<u32>,
    detection: bool,
) -> (plan: ChainPlan)
    ensures
        plan == plan_of(
            text_of(*bh_input),
            text_of(*bh_output),
            playback_id is Some,
            recording_id is Some,
            detection,
        ),
{
    let shared = match (bh_input, bh_output) {
        (Some(i), Some(o)) => *i == *o,
        _ => false,
    };
    ChainPlan {
        has_playback: bh_input.is_some(),
        shared,
        auto_capture: recording_id.is_some() && detection,
        auto_playback: playback_id.is_some() && detection,
    }
}

/// What to tell the user about demand detection.
pub fn detection_note(
    playback_id: Option<u32>,
    recording_id: Option<u32>,
    detection: bool,
) -> (note: DetectionNote)
    ensures
        note == (if playback_id is None && recording_id is None {
            DetectionNote::NoDevice
        } else if detection {
            DetectionNote::Active
        } else {
            DetectionNote::Unavailable
        }),
{
    if recording_id.is_none() && playback_id.is_none() {
        DetectionNote::NoDevice
    } else if detection {
        DetectionNote::Active
    } else {
        DetectionNote::Unavailable
    }
}

/// What a check for other processes calls for: a stopped chain starts once one is seen, a running
/// chain stops once none is left, and without an answer nothing changes.
pub open spec fn demand_action(active: bool, wants: Option<bool>) -> StreamAction {
    if wants == Some(true) && !active {
        StreamAction::Start
    } else if wants == Some(false) && active {
        StreamAction::Stop
    } else {
        StreamAction::Keep
    }
}

/// What the playback chain is told about demand: with one shared device it yields to recording.
pub open spec fn playback_demand(
    shared: bool,
    recording_active: bool,
    external: Option<bool>,
) -> Option<bool> {
    if shared && recording_active {
        Some(false)
    } else {
        external
    }
}

/// State of the macOS engine.
pub struct MacEngine<T> {
    pub plan: ChainPlan,
    /// From BlackHole to the speakers.
    pub playback: Chain<T>,
    /// From the microphone to BlackHole.
    pub recording: Chain<T>,
    /// Speakers chosen by the user.
    pub sink: Option<String>,
    /// Microphone chosen by the user.
    pub source: Option<String>,
    /// Playback frames are passed on untouched.
    pub playback_bypass: bool,
    /// Recorded frames are passed on untouched.
    pub recording_bypass: bool,
    /// The engine is to stop.
    pub shutdown: bool,
    /// When the processes on BlackHole were last checked.
    pub last_listener_poll: u64,
    /// When the last status was reported.
    pub last_status: u64,
}

impl<T> MacEngine<T> {
    /// Both chains are valid, the playback chain runs only where it follows demand on a device that
    /// exists, and where both chains share one device, they never both run.
    pub open spec fn wf(&self) -> bool {
        &&& self.playback.wf()
        &&& self.recording.wf()
        &&& self.playback.active ==> self.plan.auto_playback && self.plan.has_playback
        &&& self.plan.shared ==> !(self.playback.active && self.recording.active)
    }

    /// The playback chain is closed and empty.
    pub open spec fn playback_closed(&self) -> bool {
        &&& !self.playback.active
        &&& self.playback.input@.len() == 0
        &&& self.playback.output@.len() == 0
    }

    /// The choices, clocks and plan are as in `other`.
    pub open spec fn same_settings(&self, other: &Self) -> bool {
        &&& self.plan == other.plan
        &&& self.sink == other.sink
        &&& self.source == other.source
        &&& self.playback_bypass == other.playback_bypass
        &&& self.recording_bypass == other.recording_bypass
        &&& self.shutdown == other.shutdown
        &&& self.last_listener_poll == other.last_listener_poll
        &&& self.last_status == other.last_status
    }

    /// An engine at rest, with a check for processes due at once.
    pub fn new(plan: ChainPlan, now: u64) -> (engine: Self)
        requires
            now >= NANOS_PER_SEC,
        ensures
            engine.wf(),
            engine.plan == plan,
            !engine.playback.active,
            !engine.recording.active,
            engine.playback.input@.len() == 0,
            engine.playback.output@.len() == 0,
            engine.recording.input@.len() == 0,
            engine.recording.output@.len() == 0,
            engine.sink is None,
            engine.source is None,
            !engine.playback_bypass,
            !engine.recording_bypass,
            !engine.shutdown,
            engine.last_listener_poll == now - NANOS_PER_SEC,
            engine.last_status == now,
    {
        MacEngine {
            plan,
            playback: Chain::new(),
            recording: Chain::new(),
            sink: None,
            source: None,
            playback_bypass: false,
            recording_bypass: false,
            shutdown: false,
            last_listener_poll: now - NANOS_PER_SEC,
            last_status: now,
        }
    }

    /// Takes a command. Choosing another device restarts a chain only while it runs; otherwise the
    /// choice is picked up the next time the chain opens.
    pub fn command(&mut self, cmd: Cmd) -> (action: CmdAction)
        requires
            old(self).wf(),
        ensures
            final(self).wf(),
            final(self).plan == old(self).plan,
            final(self).last_listener_poll == old(self).last_listener_poll,
            final(self).last_status == old(self).last_status,
            final(self).sink == match cmd {
                Cmd::SetSink(name) => Some(name),
                _ => old(self).sink,
            },
            final(self).source == match cmd {
                Cmd::SetSource(name) => Some(name),
                _ => old(self).source,
            },
            final(self).playback_bypass == match cmd {
                Cmd::SetBypass(bypass) => bypass,
                Cmd::SetPlaybackBypass(bypass) => bypass,
                _ => old(self).playback_bypass,
            },
            final(self).recording_bypass == match cmd {
                Cmd::SetBypass(bypass) => bypass,
                Cmd::SetRecordingBypass(bypass) => bypass,
                _ => old(self).recording_bypass,
            },
            final(self).shutdown == (old(self).shutdown || cmd is Shutdown),
            cmd !is SetSink ==> final(self).playback == old(self).playback,
            cmd is SetSink ==> !final(self).playback.active && final(self).playback.input == old(
                self).playback.input && final(self).playback.output@.len() == 0,
            cmd is SetSource ==> !final(self).recording.active && final(
                self).recording.input@.len() == 0 && final(self).recording.output == old(
                self).recording.output,
            cmd !is SetSource && action != CmdAction::Recording(StreamAction::Stop) ==> final(
                self).recording == old(self).recording,
            action == CmdAction::Recording(StreamAction::Stop) ==> !final(self).recording.active
                && final(self).recording.input@.len() == 0 && final(
                self).recording.output@.len() == 0,
            action == match cmd {
                Cmd::SetSink(_) => if old(self).playback.active {
                    CmdAction::Playback(StreamAction::Restart)
                } else {
                    CmdAction::Done
                },
                Cmd::SetSource(_) => if old(self).recording.active {
                    CmdAction::Recording(StreamAction::Restart)
                } else {
                    CmdAction::Done
                },
                Cmd::SetMicCapture(enable) => if enable && !old(self).recording.active {
                    CmdAction::Recording(StreamAction::Start)
                } else if !enable && old(self).recording.active {
                    CmdAction::Recording(StreamAction::Stop)
                } else {
                    CmdAction::Done
                },
                Cmd::SetBypass(_) => CmdAction::Done,
                Cmd::SetPlaybackBypass(_) => CmdAction::Done,
                Cmd::SetRecordingBypass(_) => CmdAction::Done,
                Cmd::EnumerateDevices => CmdAction::ReportDevices,
                Cmd::Shutdown => CmdAction::Done,
            },
    {
        match cmd {
            Cmd::SetSink(name) => {
                self.sink = Some(name);
                let running = self.playback.active;
                self.playback.active = false;
                self.playback.output.clear();
                if running {
                    CmdAction::Playback(StreamAction::Restart)
                } else {
                    CmdAction::Done
                }
            },
            Cmd::SetSource(name) => {
                self.source = Some(name);
                let running = self.recording.active;
                self.recording.active = false;
                self.recording.input.clear();
                if running {
                    CmdAction::Recording(StreamAction::Restart)
                } else {
                    CmdAction::Done
                }
            },
            Cmd::SetBypass(bypass) => {
                self.playback_bypass = bypass;
                self.recording_bypass = bypass;
                CmdAction::Done
            },
            Cmd::SetPlaybackBypass(bypass) => {
                self.playback_bypass = bypass;
                CmdAction::Done
            },
            Cmd::SetRecordingBypass(bypass) => {
                self.recording_bypass = bypass;
                CmdAction::Done
            },
            Cmd::SetMicCapture(enable) => {
                if enable && !self.recording.active {
                    CmdAction::Recording(StreamAction::Start)
                } else if !enable && self.recording.active {
                    self.recording.close();
                    CmdAction::Recording(StreamAction::Stop)
                } else {
                    CmdAction::Done
                }
            },
            Cmd::EnumerateDevices => CmdAction::ReportDevices,
            Cmd::Shutdown => {
                self.shutdown = true;
                CmdAction::Done
            },
        }
    }

    /// Takes note of whether the recording chain's streams could be opened, and returns what has to be
    /// done with those of the playback chain: it gives way where both share one device. Where the
    /// recording chain could not be opened, the playback chain goes on as it was.
    pub fn recording_started(&mut self, opened: bool) -> (playback: StreamAction)
        requires
            old(self).wf(),
        ensures
            final(self).wf(),
            final(self).same_settings(old(self)),
            final(self).recording.input == old(self).recording.input,
            final(self).recording.output == old(self).recording.output,
            final(self).recording.active == (old(self).recording.active || opened),
            playback == (if opened && old(self).plan.shared && old(self).playback.active {
                StreamAction::Stop
            } else {
                StreamAction::Keep
            }),
            playback == StreamAction::Stop ==> final(self).playback_closed(),
            playback != StreamAction::Stop ==> final(self).playback == old(self).playback,
    {
        if !opened {
            return StreamAction::Keep;
        }
        let gives_way = self.plan.shared && self.playback.active;
        if gives_way {
            self.playback.close();
        }
        self.recording.active = true;
        if gives_way {
            StreamAction::Stop
        } else {
            StreamAction::Keep
        }
    }

    /// Takes note of whether the playback chain's streams could be opened, and returns what has to be
    /// done with them: they are dropped again where the recording chain runs on the same device.
    pub fn playback_started(&mut self, opened: bool) -> (playback: StreamAction)
        requires
            old(self).wf(),
            old(self).plan.auto_playback && old(self).plan.has_playback,
        ensures
            final(self).wf(),
            final(self).same_settings(old(self)),
            final(self).recording == old(self).recording,
            final(self).playback.input == old(self).playback.input,
            final(self).playback.output == old(self).playback.output,
            playback == (if opened && old(self).plan.shared && old(self).recording.active {
                StreamAction::Stop
            } else {
                StreamAction::Keep
            }),
            final(self).playback.active == (old(self).playback.active || (opened && playback
                == StreamAction::Keep)),
    {
        if !opened {
            return StreamAction::Keep;
        }
        if self.yielded() {
            return StreamAction::Stop;
        }
        self.playback.active = true;
        StreamAction::Keep
    }

    /// Whether the processes on BlackHole have to be checked in this pass.
    pub fn poll_due(&mut self, now: u64) -> (due: bool)
        requires
            old(self).wf(),
        ensures
            final(self).wf(),
            due == ((old(self).plan.auto_capture || old(self).plan.auto_playback) && time_since(
                now,
                old(self).last_listener_poll,
            ) >= LISTENER_POLL_INTERVAL),
            final(self).last_listener_poll == if due {
                now
            } else {
                old(self).last_listener_poll
            },
            final(self).plan == old(self).plan,
            final(self).playback == old(self).playback,
            final(self).recording == old(self).recording,
            final(self).sink == old(self).sink,
            final(self).source == old(self).source,
            final(self).playback_bypass == old(self).playback_bypass,
            final(self).recording_bypass == old(self).recording_bypass,
            final(self).shutdown == old(self).shutdown,
            final(self).last_status == old(self).last_status,
    {
        let due = (self.plan.auto_capture || self.plan.auto_playback) && elapsed(
            now,
            self.last_listener_poll,
        ) >= LISTENER_POLL_INTERVAL;
        if due {
            self.last_listener_poll = now;
        }
        due
    }

    /// Takes note of whether another process captures from BlackHole, where the system says so.
    pub fn capture_polled(&mut self, external: Option<bool>) -> (action: StreamAction)
        requires
            old(self).wf(),
        ensures
            final(self).wf(),
            final(self).same_settings(old(self)),
            action == demand_action(old(self).recording.active, external),
            final(self).playback == old(self).playback,
            action != StreamAction::Stop ==> final(self).recording == old(self).recording,
            action == StreamAction::Stop ==> !final(self).recording.active && final(
                self).recording.input@.len() == 0 && final(self).recording.output@.len() == 0,
    {
        match external {
            Some(true) => if !self.recording.active {
                StreamAction::Start
            } else {
                StreamAction::Keep
            },
            Some(false) => if self.recording.active {
                self.recording.close();
                StreamAction::Stop
            } else {
                StreamAction::Keep
            },
            None => StreamAction::Keep,
        }
    }

    /// Whether the playback chain has to leave BlackHole to the recording chain.
    pub fn yielded(&self) -> (yielded: bool)
        ensures
            yielded == (self.plan.shared && self.recording.active),
    {
        self.plan.shared && self.recording.active
    }

    /// Takes note of whether another process plays to BlackHole, where the system says so. While the
    /// recording chain runs on the same device, no demand counts.
    pub fn playback_polled(&mut self, external: Option<bool>) -> (action: StreamAction)
        requires
            old(self).wf(),
            old(self).plan.auto_playback,
        ensures
            final(self).wf(),
            final(self).same_settings(old(self)),
            final(self).recording == old(self).recording,
            ({
                let wanted = demand_action(
                    old(self).playback.active,
                    playback_demand(old(self).plan.shared, old(self).recording.active, external),
                );
                action == if wanted == StreamAction::Start && !old(self).plan.has_playback {
                    StreamAction::Keep
                } else {
                    wanted
                }
            }),
            action != StreamAction::Stop ==> final(self).playback == old(self).playback,
            action == StreamAction::Stop ==> !final(self).playback.active && final(
                self).playback.input@.len() == 0 && final(self).playback.output@.len() == 0,
            old(self).plan.shared && old(self).recording.active ==> action == StreamAction::Keep,
    {
        let wants = if self.yielded() {
            Some(false)
        } else {
            external
        };
        match wants {
            Some(true) => if !self.playback.active && self.plan.has_playback {
                StreamAction::Start
            } else {
                StreamAction::Keep
            },
            Some(false) => if self.playback.active {
                self.playback.close();
                StreamAction::Stop
            } else {
                StreamAction::Keep
            },
            None => StreamAction::Keep,
        }
    }

    /// Whether a status report is due; its time is then taken as the last.
    pub fn status_due(&mut self, now: u64) -> (due: bool)
        requires
            old(self).wf(),
        ensures
            final(self).wf(),
            due == (time_since(now, old(self).last_status) >= STATUS_INTERVAL),
            final(self).last_status == if due {
                now
            } else {
                old(self).last_status
            },
            final(self).plan == old(self).plan,
            final(self).playback == old(self).playback,
            final(self).recording == old(self).recording,
            final(self).sink == old(self).sink,
            final(self).source == old(self).source,
            final(self).playback_bypass == old(self).playback_bypass,
            final(self).recording_bypass == old(self).recording_bypass,
            final(self).shutdown == old(self).shutdown,
            final(self).last_listener_poll == old(self).last_listener_poll,
    {
        let due = elapsed(now, self.last_status) >= STATUS_INTERVAL;
        if due {
            self.last_status = now;
        }
        due
    }

    /// Whether there is nothing to do until more samples arrive.
    pub fn idle(&self) -> (idle: bool)
        requires
            self.wf(),
        ensures
            idle == ((!self.plan.has_playback || (self.playback.input@.len() < FRAME_SIZE
                && self.playback.output@.len() == 0)) && (!self.recording.active || (
            self.recording.input@.len() < FRAME_SIZE && self.recording.output@.len() == 0))),
    {
        let pb_idle = !self.plan.has_playback || (self.playback.input.len() < FRAME_SIZE
            && self.playback.output.len() == 0);
        let rec_idle = !self.recording.active || (self.recording.input.len() < FRAME_SIZE
            && self.recording.output.len() == 0);
        pb_idle && rec_idle
    }
}

/// One pass of a running chain: samples move in from its input ring, the backlog is bounded, at
/// most one frame is processed and counted, and what is queued moves out to its output ring.
pub fn service_chain<
    L: Copy + Add<Output = L>,
    E,
    F: FnOnce(&StereoChunk<u32>) -> Result<StereoChunk<u32>, E>,
    R: Fn(&[u32; CHUNK]) -> L,
>(
    chain: &mut Chain<u32>,
    cons: &mut RingConsumer,
    prod: &mut RingProducer,
    temp_buf: &mut Vec<u32>,
    denoise: F,
    is_bypass: bool,
    rms: &R,
    meter: &mut RmsMeter<L>,
) -> (turn: ChainTurn<u32, E>)
    requires
        old(chain).wf(),
        !is_bypass ==> forall|chunk: &StereoChunk<u32>| #[trigger] denoise.requires((chunk,)),
        adds::<L>(),
        forall|channel: &[u32; CHUNK]| #[trigger] rms.requires((channel,)),
        old(meter).count <= u32::MAX - 2,
    ensures
        final(chain).wf(),
        metered(*old(meter), *final(meter), turn.outcome, *rms),
        final(chain).active == old(chain).active,
        final(temp_buf)@.len() == old(temp_buf)@.len(),
        places(*final(prod)) == places(*old(prod)),
        exists|filled: Seq<u32>, waiting: nat, occupied: nat, vacant: nat, space: nat|
            {
                &&& waiting >= ready(*old(cons))
                &&& occupied <= pushed(*old(prod)).len()
                &&& occupied + room(*old(prod)) <= places(*old(prod))
                &&& room(*old(prod)) <= vacant <= places(*old(prod))
                &&& #[trigger] moved_in(
                    *old(cons),
                    *final(cons),
                    old(chain).input@,
                    filled,
                    waiting,
                    old(temp_buf)@.len(),
                )
                &&& turned(filled, final(chain).input@, denoise, !is_bypass, turn)
                &&& #[trigger] pumped_out(
                    *old(prod),
                    *final(prod),
                    old(chain).output@ + turn.outcome.appended(),
                    final(chain).output@,
                    occupied,
                    vacant,
                    space,
                )
            },
{
    pump_input(cons, &mut chain.input, temp_buf);
    let ghost filled = chain.input@;
    let turn = chain.turn(denoise, !is_bypass, rms, meter);
    let ghost queued = chain.output@;
    pump_output(prod, &mut chain.output);
    proof {
        let waiting = choose|waiting: nat|
            {
                &&& waiting >= ready(*old(cons))
                &&& #[trigger] moved_in(
                    *old(cons),
                    *cons,
                    old(chain).input@,
                    filled,
                    waiting,
                    old(temp_buf)@.len(),
                )
            };
        let (occupied, vacant, space) = choose|occupied: nat, vacant: nat, space: nat|
            {
                &&& occupied <= pushed(*old(prod)).len()
                &&& occupied + room(*old(prod)) <= places(*old(prod))
                &&& room(*old(prod)) <= vacant <= places(*old(prod))
                &&& #[trigger] pumped_out(
                    *old(prod),
                    *prod,
                    queued,
                    chain.output@,
                    occupied,
                    vacant,
                    space,
                )
            };
        assert(queued == old(chain).output@ + turn.outcome.appended());
        assert(turned(filled, chain.input@, denoise, !is_bypass, turn));
        assert(moved_in(
            *old(cons),
            *cons,
            old(chain).input@,
            filled,
            waiting,
            old(temp_buf)@.len(),
        ));
        assert(pumped_out(
            *old(prod),
            *prod,
            old(chain).output@ + turn.outcome.appended(),
            chain.output@,
            occupied,
            vacant,
            space,
        ));
    }
    turn
}

/// While the recording chain runs on a shared BlackHole device, no answer about demand makes a poll start
/// the playback chain, or keep one running. That the two never both run, whatever is called in which
/// order, is part of [`MacEngine::wf`].
pub proof fn lemma_shared_device_yields(playback_active: bool, external: Option<bool>)
    ensures
        demand_action(playback_active, playback_demand(true, true, external))
            != StreamAction::Start,
        playback_active ==> demand_action(playback_active, playback_demand(true, true, external))
            == StreamAction::Stop,
{
}

/// Carrying an action out gives what is wanted: afterwards a stream is open where it is wanted and closed
/// where it is not, nothing is done to one that is already so, and nothing where nobody knows.
pub proof fn lemma_demand_is_met(active: bool, wants: bool)
    ensures
        demand_action(active, None) == StreamAction::Keep,
        demand_action(active, Some(active)) == StreamAction::Keep,
        demand_action(false, Some(true)) == StreamAction::Start,
        demand_action(true, Some(false)) == StreamAction::Stop,
{
}

/// Demand is what was found out about other processes, except that on a shared device the playback chain is
/// not wanted while the recording chain runs.
pub proof fn lemma_demand_is_external(shared: bool, recording_active: bool, external: Option<bool>)
    ensures
        !shared ==> playback_demand(shared, recording_active, external) == external,
        !recording_active ==> playback_demand(shared, recording_active, external) == external,
        shared && recording_active ==> playback_demand(shared, recording_active, external) == Some(false),
{
}

/// When the two chains share a device: where both have one and it bears the same name. A chain follows other
/// processes where its own device is known and the system tells.
pub proof fn lemma_plan_follows_devices(
    name: Seq<char>,
    other: Seq<char>,
    playback_id: bool,
    recording_id: bool,
    detection: bool,
)
    ensures
        ({
            let same = plan_of(Some(name), Some(name), playback_id, recording_id, detection);
            &&& same.has_playback && same.shared
            &&& same.auto_capture <==> recording_id && detection
            &&& same.auto_playback <==> playback_id && detection
        }),
        name != other ==> !plan_of(Some(name), Some(other), playback_id, recording_id, detection).shared,
        !plan_of(None, Some(other), playback_id, recording_id, detection).has_playback,
        !plan_of(None, Some(other), playback_id, recording_id, detection).shared,
        !plan_of(Some(name), None, playback_id, recording_id, detection).shared,
        !plan_of(None, None, playback_id, recording_id, detection).shared,
{
}

/// What an engine holds to: both chains are never open at once on a shared device, and the playback chain is
/// open only where it follows other processes and has a device to read.
pub proof fn lemma_shared_device_has_one_user<T>(engine: MacEngine<T>)
    requires
        engine.wf(),
    ensures
        engine.plan.shared && engine.recording.active ==> !engine.playback.active,
        engine.playback.active ==> engine.plan.has_playback && engine.plan.auto_playback,
        engine.playback.wf(),
        engine.recording.wf(),
        engine.playback_closed() ==> !engine.playback.active && engine.playback.input@.len() == 0
            && engine.playback.output@.len() == 0,
{
}

/// What stays the same while the settings do: everything but the chains.
pub proof fn lemma_all_but_the_chains<T>(a: MacEngine<T>, b: MacEngine<T>)
    requires
        a.same_settings(&b),
    ensures
        a == (MacEngine { playback: a.playback, recording: a.recording, ..b }),
{
}

} // verus!
