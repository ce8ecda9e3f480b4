//! The PulseAudio engine: when the two capture streams open and close, and what flows through the
//! two chains.
//!
//! The engine holds the decisions; the caller owns the server connection and the streams. Each
//! pass of the caller's loop polls the listeners when [`PulseEngine::listener_due`] says so, hands
//! over commands, feeds captured samples, processes at most one frame per chain, writes what is
//! queued, and reports.
use vstd::prelude::*;
use std::ops::Add;

use crate::chain::{bounded, may_ask, metered, turned, Chain, ChainTurn};
use crate::chunk::{StereoChunk, CHUNK, FRAME_SIZE};
use crate::clock::{elapsed, time_since, NANOS_PER_MILLI, NANOS_PER_SEC, STATUS_INTERVAL};
use crate::dsp::adds;
use crate::meter::RmsMeter;
use crate::model::Model;
use crate::text::{same_texts, texts};

verus! {

/// Time between two checks for applications on the virtual devices.
pub const LISTENER_CHECK_INTERVAL: u64 = 500 * NANOS_PER_MILLI;

/// Time that the playback capture outlives the last application seen on the virtual sink.
pub const SINK_GRACE: u64 = 3 * NANOS_PER_SEC;

/// Status reports between two diagnostic ones.
pub const DIAGNOSTIC_PERIOD: u64 = 20;

/// A request from the user interface.
pub enum Cmd {
    SwitchModel(Model),
    EnumerateDevices,
    SetSink(String),
    SetSource(String),
    Shutdown,
}

/// What the caller has to do for a [`Cmd`].
pub enum CmdAction {
    /// Build both denoisers anew from this model.
    RebuildDenoisers(Model),
    /// Answer with the device lists.
    ReportDevices,
    /// Open a new playback stream to [`PulseEngine::sink`].
    ReconnectSink,
    /// Open a capture stream from [`PulseEngine::source`], and report the attempt to
    /// [`PulseEngine::source_attempted`].
    OpenSource,
    /// Leave the loop.
    Quit,
}

/// What the caller has to do with a capture stream.
#[derive(Clone, Copy, Debug, PartialEq, Eq, Structural)]
pub enum CaptureAction {
    /// Nothing.
    Keep,
    /// Open it, and report the attempt.
    Open,
    /// Drop it; the chain was emptied, and its levels start anew.
    Closed,
}

/// How an attempt to open a capture stream ended.
#[derive(Clone, Copy, Debug, PartialEq, Eq, Structural)]
pub enum CaptureAttempt {
    /// No stream could be created.
    NoStream,
    /// The stream could not be connected.
    Refused,
    /// The stream is connected.
    Connected,
}

/// What the check of the virtual source has found.
pub struct ConsumersPoll {
    /// The set of listening applications is another one than at the last check.
    pub changed: bool,
    pub action: CaptureAction,
}

/// The part of a status report that is no level.
#[derive(Clone, Copy, Debug, PartialEq, Eq, Structural)]
pub struct StatusFlags {
    /// The recording capture is open.
    pub recording_active: bool,
    /// An application was listening on the virtual source at the last check.
    pub recording_detected: bool,
    /// The report calls for a line on how the output streams are doing.
    pub diagnostic: bool,
}

/// Whether the microphone should be captured: 1 forces it on, 2 forces it off, anything else
/// follows the listeners.
pub open spec fn capture_wanted(src_override: u8, detected: bool) -> bool {
    if src_override == 1 {
        true
    } else if src_override == 2 {
        false
    } else {
        detected
    }
}

/// Whether the microphone should be captured.
pub fn should_capture(src_override: u8, detected: bool) -> (wanted: bool)
    ensures
        wanted == capture_wanted(src_override, detected),
{
    match src_override {
        1 => true,
        2 => false,
        _ => detected,
    }
}

/// The capture action that brings a chain from `active` to `wanted`.
pub open spec fn action_towards(wanted: bool, active: bool) -> CaptureAction {
    if wanted && !active {
        CaptureAction::Open
    } else if !wanted && active {
        CaptureAction::Closed
    } else {
        CaptureAction::Keep
    }
}

/// One check of the virtual sink: when it was made, and whether any application played to it.
pub struct SinkCheck {
    pub now: u64,
    pub has_sink: bool,
}

/// When an application was last seen on the virtual sink, after a check.
pub open spec fn seen_after(last_seen: u64, check: SinkCheck) -> u64 {
    if check.has_sink {
        check.now
    } else {
        last_seen
    }
}

/// When an application was last seen on the virtual sink, after a run of checks.
pub open spec fn seen_after_all(last_seen: u64, checks: Seq<SinkCheck>) -> u64
    decreases checks.len(),
{
    if checks.len() == 0 {
        last_seen
    } else {
        seen_after(seen_after_all(last_seen, checks.drop_last()), checks.last())
    }
}

/// What a check of the virtual sink calls for.
pub open spec fn sink_action(active: bool, last_seen: u64, check: SinkCheck) -> CaptureAction {
    if check.has_sink && !active {
        CaptureAction::Open
    } else if !check.has_sink && active && time_since(check.now, last_seen) >= SINK_GRACE {
        CaptureAction::Closed
    } else {
        CaptureAction::Keep
    }
}

/// The playback capture is closed only when every check of the last [`SINK_GRACE`] found the
/// virtual sink unused: a short lapse in detection never interrupts an application's audio.
pub proof fn lemma_sink_grace(active: bool, start: u64, checks: Seq<SinkCheck>)
    requires
        checks.len() > 0,
        forall|i: int, j: int|
            0 <= i <= j < checks.len() ==> (#[trigger] checks[i]).now <= (#[trigger] checks[j]).now,
        sink_action(active, seen_after_all(start, checks.drop_last()), checks.last())
            == CaptureAction::Closed,
    ensures
        forall|i: int|
            0 <= i < checks.len() && (#[trigger] checks[i]).has_sink ==> checks.last().now
                - checks[i].now >= SINK_GRACE,
{
    let before = checks.drop_last();
    assert forall|i: int| 0 <= i < checks.len() && (#[trigger] checks[i]).has_sink implies checks.last().now
        - checks[i].now >= SINK_GRACE by {
        assert(i < before.len());
        assert(before[i] == checks[i]);
        assert forall|a: int, b: int| 0 <= a <= b < before.len() implies (#[trigger] before[a]).now
            <= (#[trigger] before[b]).now by {
            assert(before[a] == checks[a] && before[b] == checks[b]);
        }
        lemma_seen_latest(start, before, i);
    }
}

/// A check of the virtual sink, in so many words. An application that plays opens a capture that is closed
/// and never closes one. A capture that is open, with no application, is let go just when the last one was
/// seen three seconds ago or longer.
pub proof fn lemma_unused_sink_is_let_go(active: bool, last_seen: u64, check: SinkCheck)
    ensures
        sink_action(active, last_seen, check) == CaptureAction::Open <==> check.has_sink && !active,
        sink_action(active, last_seen, check) == CaptureAction::Closed <==> !check.has_sink && active
            && check.now - last_seen >= 3_000_000_000,
        seen_after(last_seen, check) == (if check.has_sink {
            check.now
        } else {
            last_seen
        }),
{
}

/// In a run of checks that see no application, the first one that comes three seconds or more after the
/// last sighting closes the capture, and none before it does.
pub proof fn lemma_first_check_after_grace_closes(start: u64, checks: Seq<SinkCheck>, k: int)
    requires
        0 <= k < checks.len(),
        forall|i: int| 0 <= i < checks.len() ==> !(#[trigger] checks[i]).has_sink,
        forall|i: int|
            0 <= i < k ==> (#[trigger] checks[i]).now - start < 3_000_000_000,
        checks[k].now - start >= 3_000_000_000,
    ensures
        forall|i: int|
            0 <= i < k ==> sink_action(true, seen_after_all(start, checks.take(i)), #[trigger] checks[i])
                == CaptureAction::Keep,
        sink_action(true, seen_after_all(start, checks.take(k)), checks[k]) == CaptureAction::Closed,
{
    assert forall|i: int| 0 <= i <= k implies seen_after_all(start, #[trigger] checks.take(i)) == start by {
        lemma_nothing_seen(start, checks.take(i));
    }
    assert(seen_after_all(start, checks.take(k)) == start);
    assert forall|i: int| 0 <= i < k implies sink_action(
        true,
        seen_after_all(start, checks.take(i)),
        #[trigger] checks[i],
    ) == CaptureAction::Keep by {
        assert(seen_after_all(start, checks.take(i)) == start);
    }
}

/// Checks that see nothing leave the time of the last sighting alone.
proof fn lemma_nothing_seen(start: u64, checks: Seq<SinkCheck>)
    requires
        forall|i: int| 0 <= i < checks.len() ==> !(#[trigger] checks[i]).has_sink,
    ensures
        seen_after_all(start, checks) == start,
    decreases checks.len(),
{
    if checks.len() > 0 {
        let before = checks.drop_last();
        assert forall|i: int| 0 <= i < before.len() implies !(#[trigger] before[i]).has_sink by {
            assert(before[i] == checks[i]);
        }
        lemma_nothing_seen(start, before);
        assert(!checks[checks.len() - 1].has_sink);
    }
}

/// The time of the last sighting is not before any sighting of the run.
proof fn lemma_seen_latest(start: u64, checks: Seq<SinkCheck>, i: int)
    requires
        0 <= i < checks.len(),
        checks[i].has_sink,
        forall|i: int, j: int|
            0 <= i <= j < checks.len() ==> (#[trigger] checks[i]).now <= (#[trigger] checks[j]).now,
    ensures
        seen_after_all(start, checks) >= checks[i].now,
    decreases checks.len(),
{
    let before = checks.drop_last();
    if i < before.len() {
        assert(before[i] == checks[i]);
        assert forall|a: int, b: int| 0 <= a <= b < before.len() implies (#[trigger] before[a]).now
            <= (#[trigger] before[b]).now by {
            assert(before[a] == checks[a] && before[b] == checks[b]);
        }
        lemma_seen_latest(start, before, i);
        assert(checks[i].now <= checks[checks.len() - 1].now);
    }
}

/// Whether a chain captures, once an action was carried out and any stream it opened connected.
pub open spec fn active_after(action: CaptureAction, active: bool) -> bool {
    match action {
        CaptureAction::Keep => active,
        CaptureAction::Open => true,
        CaptureAction::Closed => false,
    }
}

/// The microphone is captured exactly when it is wanted: while forced on, never while forced off,
/// and otherwise while an application listens.
pub proof fn lemma_recording_follows_listeners(src_override: u8, detected: bool, active: bool)
    ensures
        active_after(action_towards(capture_wanted(src_override, detected), active), active)
            == capture_wanted(src_override, detected),
        capture_wanted(1, detected),
        !capture_wanted(2, detected),
        src_override != 1 && src_override != 2 ==> capture_wanted(src_override, detected)
            == detected,
{
}

/// State of the PulseAudio engine.
pub struct PulseEngine<T> {
    /// From the virtual sink to the speakers.
    pub playback: Chain<T>,
    /// From the microphone to the virtual source.
    pub recording: Chain<T>,
    /// Name of the sink that denoised playback goes to.
    pub sink: String,
    /// Name of the source that is recorded from.
    pub source: String,
    /// When an application was last seen on the virtual sink.
    pub last_sink_active: u64,
    /// When the listeners were last checked.
    pub listener_check: u64,
    /// When the last status was reported.
    pub last_status: u64,
    /// Whether an application was listening at the last check.
    pub last_detected: bool,
    /// The applications that were listening at the last check.
    pub last_consumers: Vec<String>,
    /// Status reports so far.
    pub ticks: u64,
}

impl<T> PulseEngine<T> {
    /// Both chains are valid, and one whose capture is closed holds no samples.
    pub open spec fn wf(&self) -> bool {
        &&& self.playback.wf()
        &&& self.recording.wf()
        &&& self.playback.quiet_when_closed()
        &&& self.recording.quiet_when_closed()
    }

    /// Everything but the chains and the time of the last listener check is as in `other`.
    pub open spec fn same_settings(&self, other: &Self) -> bool {
        &&& self.sink == other.sink
        &&& self.source == other.source
        &&& self.last_status == other.last_status
        &&& self.last_detected == other.last_detected
        &&& self.last_consumers == other.last_consumers
        &&& self.ticks == other.ticks
    }

    /// The clocks and counts that no command touches are as in `other`.
    pub open spec fn same_clocks(&self, other: &Self) -> bool {
        &&& self.last_sink_active == other.last_sink_active
        &&& self.listener_check == other.listener_check
        &&& self.last_status == other.last_status
        &&& self.last_detected == other.last_detected
        &&& self.last_consumers == other.last_consumers
        &&& self.ticks == other.ticks
    }

    /// An engine at rest that delivers to `sink` and records from `source`.
    pub fn new(sink: String, source: String, now: u64) -> (engine: Self)
        ensures
            engine.wf(),
            !engine.playback.active,
            !engine.recording.active,
            engine.sink == sink,
            engine.source == source,
            engine.last_sink_active == now,
            engine.listener_check == now,
            engine.last_status == now,
            !engine.last_detected,
            engine.last_consumers@.len() == 0,
            engine.ticks == 0,
    {
        PulseEngine {
            playback: Chain::new(),
            recording: Chain::new(),
            sink,
            source,
            last_sink_active: now,
            listener_check: now,
            last_status: now,
            last_detected: false,
            last_consumers: Vec::new(),
            ticks: 0,
        }
    }

    /// Whether the listeners have to be checked.
    pub fn listener_due(&self, now: u64) -> (due: bool)
        ensures
            due == (time_since(now, self.listener_check) >= LISTENER_CHECK_INTERVAL),
    {
        elapsed(now, self.listener_check) >= LISTENER_CHECK_INTERVAL
    }

    /// Takes note of whether any application plays to the virtual sink. The capture is opened as
    /// soon as one does, and closed once none was seen for [`SINK_GRACE`].
    pub fn sink_polled(&mut self, now: u64, has_sink: bool) -> (action: CaptureAction)
        requires
            old(self).wf(),
        ensures
            final(self).wf(),
            final(self).same_settings(old(self)),
            final(self).listener_check == old(self).listener_check,
            final(self).recording == old(self).recording,
            final(self).last_sink_active == seen_after(
                old(self).last_sink_active,
                (SinkCheck { now, has_sink }),
            ),
            action == sink_action(
                old(self).playback.active,
                old(self).last_sink_active,
                (SinkCheck { now, has_sink }),
            ),
            action == CaptureAction::Closed <==> !has_sink && old(self).playback.active && now - old(
                self).last_sink_active >= SINK_GRACE,
            action == CaptureAction::Open <==> has_sink && !old(self).playback.active,
            action == CaptureAction::Closed ==> !final(self).playback.active,
            action != CaptureAction::Closed ==> final(self).playback == old(self).playback,
    {
        if has_sink {
            self.last_sink_active = now;
        }
        if has_sink && !self.playback.active {
            CaptureAction::Open
        } else if !has_sink && self.playback.active && elapsed(now, self.last_sink_active)
            >= SINK_GRACE {
            self.playback.close();
            CaptureAction::Closed
        } else {
            CaptureAction::Keep
        }
    }

    /// Takes note of an attempt to open the playback capture. Returns whether the rest of this
    /// pass is to be skipped, which is so when no stream could be created.
    pub fn playback_attempted(&mut self, now: u64, attempt: CaptureAttempt) -> (skip: bool)
        requires
            old(self).wf(),
        ensures
            final(self).wf(),
            final(self).same_settings(old(self)),
            final(self).last_sink_active == old(self).last_sink_active,
            final(self).recording == old(self).recording,
            skip == (attempt == CaptureAttempt::NoStream),
            final(self).listener_check == if skip {
                now
            } else {
                old(self).listener_check
            },
            attempt == CaptureAttempt::Connected ==> final(self).playback.active && final(self).playback.input@.len() == 0 && final(self).playback.output@ == old(self).playback.output@,
            attempt != CaptureAttempt::Connected ==> final(self).playback == old(self).playback,
    {
        match attempt {
            CaptureAttempt::NoStream => {
                self.listener_check = now;
                true
            },
            CaptureAttempt::Refused => false,
            CaptureAttempt::Connected => {
                self.playback.open();
                false
            },
        }
    }

    /// Takes note of the applications that listen on the virtual source, and decides on the
    /// recording capture.
    pub fn consumers_polled(&mut self, consumers: Vec<String>, src_override: u8) -> (poll:
        ConsumersPoll)
        requires
            old(self).wf(),
        ensures
            final(self).wf(),
            final(self).playback == old(self).playback,
            final(self).sink == old(self).sink,
            final(self).source == old(self).source,
            final(self).last_sink_active == old(self).last_sink_active,
            final(self).listener_check == old(self).listener_check,
            final(self).last_status == old(self).last_status,
            final(self).ticks == old(self).ticks,
            final(self).last_detected == (consumers@.len() > 0),
            texts(final(self).last_consumers@) == texts(consumers@),
            poll.changed == (texts(consumers@) != texts(old(self).last_consumers@)),
            poll.action == action_towards(
                capture_wanted(src_override, consumers@.len() > 0),
                old(self).recording.active,
            ),
            poll.action == CaptureAction::Closed ==> !final(self).recording.active,
            poll.action != CaptureAction::Closed ==> final(self).recording == old(self).recording,
    {
        let has_src = consumers.len() > 0;
        self.last_detected = has_src;
        let changed = !same_texts(&consumers, &self.last_consumers);
        if changed {
            self.last_consumers = consumers;
        }
        let wanted = should_capture(src_override, has_src);
        let action = if wanted && !self.recording.active {
            CaptureAction::Open
        } else if !wanted && self.recording.active {
            self.recording.close();
            CaptureAction::Closed
        } else {
            CaptureAction::Keep
        };
        ConsumersPoll { changed, action }
    }

    /// Takes note of an attempt to open the recording capture after a listener check. Returns
    /// whether the rest of this pass is to be skipped, which is so when no stream could be
    /// created.
    pub fn recording_attempted(&mut self, now: u64, attempt: CaptureAttempt) -> (skip: bool)
        requires
            old(self).wf(),
        ensures
            final(self).wf(),
            final(self).same_settings(old(self)),
            final(self).last_sink_active == old(self).last_sink_active,
            final(self).playback == old(self).playback,
            skip == (attempt == CaptureAttempt::NoStream),
            final(self).listener_check == if skip {
                now
            } else {
                old(self).listener_check
            },
            attempt == CaptureAttempt::Connected ==> final(self).recording.active && final(self).recording.input@.len() == 0 && final(self).recording.output@ == old(self).recording.output@,
            attempt != CaptureAttempt::Connected ==> final(self).recording == old(self).recording,
    {
        match attempt {
            CaptureAttempt::NoStream => {
                self.listener_check = now;
                true
            },
            CaptureAttempt::Refused => false,
            CaptureAttempt::Connected => {
                self.recording.open();
                false
            },
        }
    }

    /// Takes note that a listener check is complete.
    pub fn listeners_checked(&mut self, now: u64)
        ensures
            final(self).same_settings(old(self)),
            final(self).last_sink_active == old(self).last_sink_active,
            final(self).playback == old(self).playback,
            final(self).recording == old(self).recording,
            final(self).listener_check == now,
    {
        self.listener_check = now;
    }

    /// Takes a command. A new sink drops what was queued for the old one; a new source is opened
    /// by the caller at once.
    pub fn command(&mut self, cmd: Cmd) -> (action: CmdAction)
        requires
            old(self).wf(),
        ensures
            final(self).wf(),
            final(self).same_clocks(old(self)),
            final(self).recording == old(self).recording,
            final(self).playback.active == old(self).playback.active,
            final(self).playback.input == old(self).playback.input,
            match cmd {
                Cmd::SwitchModel(model) => action == CmdAction::RebuildDenoisers(model),
                Cmd::EnumerateDevices => action == CmdAction::ReportDevices,
                Cmd::SetSink(name) => action == CmdAction::ReconnectSink && final(self).sink == name
                    && final(self).playback.output@.len() == 0,
                Cmd::SetSource(name) => action == CmdAction::OpenSource && final(self).source
                    == name,
                Cmd::Shutdown => action == CmdAction::Quit,
            },
            cmd !is SetSink ==> final(self).sink == old(self).sink && final(self).playback == old(self).playback,
            cmd !is SetSource ==> final(self).source == old(self).source,
    {
        match cmd {
            Cmd::SwitchModel(model) => CmdAction::RebuildDenoisers(model),
            Cmd::EnumerateDevices => CmdAction::ReportDevices,
            Cmd::SetSink(name) => {
                self.sink = name;
                self.playback.output.clear();
                CmdAction::ReconnectSink
            },
            Cmd::SetSource(name) => {
                self.source = name;
                CmdAction::OpenSource
            },
            Cmd::Shutdown => CmdAction::Quit,
        }
    }

    /// Takes note of an attempt to open the source that a command has asked for. Returns whether
    /// further commands have to wait for the next pass, which is so when no stream could be
    /// created.
    pub fn source_attempted(&mut self, attempt: CaptureAttempt) -> (wait: bool)
        requires
            old(self).wf(),
        ensures
            final(self).wf(),
            final(self).same_clocks(old(self)),
            final(self).sink == old(self).sink,
            final(self).source == old(self).source,
            final(self).playback == old(self).playback,
            wait == (attempt == CaptureAttempt::NoStream),
            attempt == CaptureAttempt::Connected ==> final(self).recording.active && final(self).recording.input@.len() == 0 && final(self).recording.output@ == old(self).recording.output@,
            attempt != CaptureAttempt::Connected ==> final(self).recording == old(self).recording,
    {
        match attempt {
            CaptureAttempt::NoStream => true,
            CaptureAttempt::Refused => false,
            CaptureAttempt::Connected => {
                self.recording.open();
                false
            },
        }
    }

    /// Whether there is nothing to do until more samples arrive.
    pub fn idle(&self) -> (idle: bool)
        requires
            self.wf(),
        ensures
            idle == (self.playback.input@.len() < FRAME_SIZE && self.recording.input@.len()
                < FRAME_SIZE && self.playback.output@.len() == 0 && self.recording.output@.len()
                == 0),
    {
        self.playback.input.len() < FRAME_SIZE && self.recording.input.len() < FRAME_SIZE
            && self.playback.output.len() == 0 && self.recording.output.len() == 0
    }

    /// The status to report, when one is due.
    pub fn status(&mut self, now: u64) -> (status: Option<StatusFlags>)
        requires
            old(self).wf(),
        ensures
            final(self).wf(),
            final(self).playback == old(self).playback,
            final(self).recording == old(self).recording,
            final(self).sink == old(self).sink,
            final(self).source == old(self).source,
            final(self).last_sink_active == old(self).last_sink_active,
            final(self).listener_check == old(self).listener_check,
            final(self).last_detected == old(self).last_detected,
            final(self).last_consumers == old(self).last_consumers,
            status is Some <==> time_since(now, old(self).last_status) >= STATUS_INTERVAL,
            status matches Some(flags) ==> {
                &&& flags.recording_active == old(self).recording.active
                &&& flags.recording_detected == old(self).last_detected
                &&& flags.diagnostic == (old(self).ticks % DIAGNOSTIC_PERIOD == 0 && (old(self).recording.active || old(self).playback.active))
                &&& final(self).last_status == now
                &&& final(self).ticks == if old(self).ticks == u64::MAX {
                    0
                } else {
                    (old(self).ticks + 1) as u64
                }
            },
            status is None ==> final(self).last_status == old(self).last_status && final(self).ticks
                == old(self).ticks,
    {
        if elapsed(now, self.last_status) < STATUS_INTERVAL {
            return None;
        }
        let diagnostic = self.ticks % DIAGNOSTIC_PERIOD == 0 && (self.recording.active
            || self.playback.active);
        self.ticks = self.ticks.wrapping_add(1);
        self.last_status = now;
        Some(
            StatusFlags {
                recording_active: self.recording.active,
                recording_detected: self.last_detected,
                diagnostic,
            },
        )
    }
}

/// What one turn of both chains did.
pub struct Turn<T, E> {
    pub playback: ChainTurn<T, E>,
    pub recording: ChainTurn<T, E>,
}

impl<T: Copy> PulseEngine<T> {
    /// One turn of both chains: latency is bounded, at most one frame of each chain is processed, and each
    /// chain's meter counts its frame.
    pub fn turn<
        L: Copy + Add<Output = L>,
        E,
        F: FnOnce(&StereoChunk<T>) -> Result<StereoChunk<T>, E>,
        G: FnOnce(&StereoChunk<T>) -> Result<StereoChunk<T>, E>,
        R: Fn(&[T; CHUNK]) -> L,
    >(
        &mut self,
        denoise_playback: F,
        denoise_recording: G,
        playback_enabled: bool,
        recording_enabled: bool,
        rms: &R,
        playback_meter: &mut RmsMeter<L>,
        recording_meter: &mut RmsMeter<L>,
    ) -> (turn: Turn<T, E>)
        requires
            old(self).wf(),
            may_ask(
                denoise_playback,
                bounded(old(self).playback.input@),
                !playback_enabled,
                FRAME_SIZE as nat,
            ),
            may_ask(
                denoise_recording,
                bounded(old(self).recording.input@),
                !recording_enabled,
                FRAME_SIZE as nat,
            ),
            adds::<L>(),
            forall|channel: &[T; CHUNK]| #[trigger] rms.requires((channel,)),
            old(playback_meter).count <= u32::MAX - 2,
            old(recording_meter).count <= u32::MAX - 2,
        ensures
            final(self).wf(),
            final(self).same_clocks(old(self)),
            final(self).sink == old(self).sink,
            final(self).source == old(self).source,
            final(self).playback.active == old(self).playback.active,
            final(self).recording.active == old(self).recording.active,
            turned(
                old(self).playback.input@,
                final(self).playback.input@,
                denoise_playback,
                playback_enabled,
                turn.playback,
            ),
            final(self).playback.output@ == old(self).playback.output@
                + turn.playback.outcome.appended(),
            metered(*old(playback_meter), *final(playback_meter), turn.playback.outcome, *rms),
            turned(
                old(self).recording.input@,
                final(self).recording.input@,
                denoise_recording,
                recording_enabled,
                turn.recording,
            ),
            final(self).recording.output@ == old(self).recording.output@
                + turn.recording.outcome.appended(),
            metered(*old(recording_meter), *final(recording_meter), turn.recording.outcome, *rms),
    {
        let playback = self.playback.turn(denoise_playback, playback_enabled, rms, playback_meter);
        let recording = self.recording.turn(
            denoise_recording,
            recording_enabled,
            rms,
            recording_meter,
        );
        Turn { playback, recording }
    }
}

/// What an engine holds to: a chain whose capture is closed holds no samples.
pub proof fn lemma_closed_captures_hold_nothing<T>(engine: PulseEngine<T>)
    requires
        engine.wf(),
    ensures
        engine.playback.wf(),
        engine.recording.wf(),
        !engine.playback.active ==> engine.playback.input@.len() == 0 && engine.playback.output@.len() == 0,
        !engine.recording.active ==> engine.recording.input@.len() == 0 && engine.recording.output@.len()
            == 0,
{
}

/// What stays the same while the settings do: everything but the chains and when they were last looked after.
/// While the clocks do: everything but the chains and the two names.
pub proof fn lemma_all_but_the_chains<T>(a: PulseEngine<T>, b: PulseEngine<T>)
    ensures
        a.same_settings(&b) ==> a == (PulseEngine {
            playback: a.playback,
            recording: a.recording,
            last_sink_active: a.last_sink_active,
            listener_check: a.listener_check,
            ..b
        }),
        a.same_clocks(&b) ==> a == (PulseEngine {
            playback: a.playback,
            recording: a.recording,
            sink: a.sink,
            source: a.source,
            ..b
        }),
{
}

/// Where a capture goes: it is opened where it is wanted and closed, closed where it is open and not wanted,
/// and left alone where it is as wanted.
pub proof fn lemma_capture_moves_towards_demand(wanted: bool, active: bool)
    ensures
        action_towards(true, false) == CaptureAction::Open,
        action_towards(false, true) == CaptureAction::Closed,
        action_towards(active, active) == CaptureAction::Keep,
        active_after(action_towards(wanted, active), active) == wanted,
{
}

} // verus!
