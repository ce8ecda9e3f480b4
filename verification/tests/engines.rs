use upalla::chain::FrameOutcome;
use upalla::chunk::{StereoChunk, CHUNK, FRAME_SIZE};
use upalla::clock::{NANOS_PER_SEC, STATUS_INTERVAL};
use upalla::coreaudio;
use upalla::mac::{self, detection_note, plan_chains, DetectionNote, MacEngine, StreamAction};
use upalla::meter::RmsMeter;
use upalla::model::Model;
use upalla::pulse::{
    should_capture, CaptureAction, CaptureAttempt, Cmd, CmdAction, PulseEngine,
    LISTENER_CHECK_INTERVAL, SINK_GRACE,
};
use upalla::ring::{feed, open_ring, RINGBUF_CAP};

fn names(list: &[&str]) -> Vec<String> {
    list.iter().map(|s| s.to_string()).collect()
}

fn engine() -> PulseEngine<u32> {
    PulseEngine::new("speakers".to_string(), "mic".to_string(), 0)
}

fn swap(c: &StereoChunk<u32>) -> Result<StereoChunk<u32>, ()> {
    Ok(StereoChunk { left: c.right, right: c.left })
}

fn level_of(channel: &[u32; CHUNK]) -> u64 {
    channel[0] as u64
}

fn meter() -> RmsMeter<u64> {
    RmsMeter::new(0)
}

#[test]
fn listeners_are_checked_twice_a_second() {
    let mut e = engine();
    assert!(!e.listener_due(LISTENER_CHECK_INTERVAL - 1));
    assert!(e.listener_due(LISTENER_CHECK_INTERVAL));
    e.listeners_checked(LISTENER_CHECK_INTERVAL);
    assert!(!e.listener_due(LISTENER_CHECK_INTERVAL + 1));
}

#[test]
fn playback_capture_outlives_short_lapses() {
    let mut e = engine();
    assert_eq!(e.sink_polled(10, true), CaptureAction::Open);
    assert!(!e.playback_attempted(10, CaptureAttempt::Refused));
    assert!(!e.playback.active);
    assert_eq!(e.sink_polled(20, true), CaptureAction::Open);
    assert!(!e.playback_attempted(20, CaptureAttempt::Connected));
    assert!(e.playback.active);
    e.playback.feed(&[1, 2, 3]);
    assert_eq!(e.sink_polled(20 + SINK_GRACE - 1, false), CaptureAction::Keep);
    assert_eq!(e.playback.input.len(), 3);
    assert_eq!(e.sink_polled(20 + SINK_GRACE - 1, true), CaptureAction::Keep);
    let seen = 20 + SINK_GRACE - 1;
    assert_eq!(e.sink_polled(seen + SINK_GRACE - 1, false), CaptureAction::Keep);
    assert_eq!(e.sink_polled(seen + SINK_GRACE, false), CaptureAction::Closed);
    assert!(!e.playback.active);
    assert_eq!(e.playback.input.len(), 0);
}

#[test]
fn a_missing_stream_skips_the_pass() {
    let mut e = engine();
    assert!(e.playback_attempted(77, CaptureAttempt::NoStream));
    assert_eq!(e.listener_check, 77);
    assert!(e.recording_attempted(88, CaptureAttempt::NoStream));
    assert_eq!(e.listener_check, 88);
    assert!(!e.recording_attempted(99, CaptureAttempt::Connected));
    assert_eq!(e.listener_check, 88);
    assert!(e.recording.active);
}

#[test]
fn recording_follows_listeners_unless_forced() {
    assert!(should_capture(1, false));
    assert!(!should_capture(2, true));
    assert!(should_capture(0, true));
    assert!(!should_capture(7, false));

    let mut e = engine();
    let poll = e.consumers_polled(names(&["browser"]), 0);
    assert!(poll.changed);
    assert_eq!(poll.action, CaptureAction::Open);
    e.recording_attempted(1, CaptureAttempt::Connected);
    let poll = e.consumers_polled(names(&["browser"]), 0);
    assert!(!poll.changed);
    assert_eq!(poll.action, CaptureAction::Keep);
    let poll = e.consumers_polled(names(&["browser", "phone"]), 2);
    assert!(poll.changed);
    assert_eq!(poll.action, CaptureAction::Closed);
    assert!(e.last_detected);
    let poll = e.consumers_polled(names(&[]), 1);
    assert!(poll.changed);
    assert_eq!(poll.action, CaptureAction::Open);
    assert!(!e.last_detected);
}

#[test]
fn commands_set_targets_and_ask_for_streams() {
    let mut e = engine();
    assert!(matches!(e.command(Cmd::SwitchModel(Model::default())), CmdAction::RebuildDenoisers(Model::DeepFilterNet3)));
    assert!(matches!(e.command(Cmd::EnumerateDevices), CmdAction::ReportDevices));
    e.playback_attempted(0, CaptureAttempt::Connected);
    e.playback.feed(&vec![4; FRAME_SIZE]);
    e.turn(swap, swap, true, true, &level_of, &mut meter(), &mut meter());
    assert_eq!(e.playback.output.len(), FRAME_SIZE);
    assert!(matches!(e.command(Cmd::SetSink("hdmi".to_string())), CmdAction::ReconnectSink));
    assert_eq!(e.sink, "hdmi");
    assert_eq!(e.playback.output.len(), 0);
    assert!(matches!(e.command(Cmd::SetSource("usb".to_string())), CmdAction::OpenSource));
    assert_eq!(e.source, "usb");
    assert!(e.source_attempted(CaptureAttempt::NoStream));
    assert!(!e.source_attempted(CaptureAttempt::Refused));
    assert!(!e.recording.active);
    assert!(!e.source_attempted(CaptureAttempt::Connected));
    assert!(e.recording.active);
    assert!(matches!(e.command(Cmd::Shutdown), CmdAction::Quit));
}

#[test]
fn a_turn_takes_one_frame_per_chain_and_bounds_the_backlog() {
    let mut e = engine();
    assert!(e.idle());
    e.playback_attempted(0, CaptureAttempt::Connected);
    e.recording_attempted(0, CaptureAttempt::Connected);
    let samples: Vec<u32> = (0..(20 * FRAME_SIZE) as u32).collect();
    e.playback.feed(&samples);
    e.recording.feed(&samples[..2 * FRAME_SIZE]);
    let (mut playback, mut recording) = (meter(), meter());
    let unused = |_: &StereoChunk<u32>| -> Result<StereoChunk<u32>, ()> {
        panic!("a bypassed chain leaves its denoiser alone")
    };
    let turn = e.turn(swap, unused, true, false, &level_of, &mut playback, &mut recording);
    assert_eq!((turn.playback.dropped, turn.recording.dropped), (12 * FRAME_SIZE, 0));
    assert!(matches!(turn.playback.outcome, FrameOutcome::Denoised { .. }));
    assert!(matches!(turn.recording.outcome, FrameOutcome::Bypassed { .. }));
    assert_eq!(e.playback.input.len(), 7 * FRAME_SIZE);
    assert_eq!(e.recording.input.len(), FRAME_SIZE);
    let first = (12 * FRAME_SIZE) as u32;
    assert_eq!(e.playback.output.take_available(2), vec![first + 1, first]);
    assert_eq!(e.recording.output.take_available(2), vec![0, 1]);
    let level = first as u64 + first as u64 + 1;
    assert_eq!((playback.input, playback.output, playback.count), (level, level, 2));
    assert_eq!((recording.input, recording.output, recording.count), (1, 1, 2));
    assert!(!e.idle());
}

#[test]
fn status_comes_ten_times_a_second_with_a_diagnostic_now_and_then() {
    let mut e = engine();
    assert!(e.status(STATUS_INTERVAL - 1).is_none());
    let mut diagnostics = 0;
    e.recording_attempted(0, CaptureAttempt::Connected);
    for k in 1..=40u64 {
        let flags = e.status(k * STATUS_INTERVAL).expect("due");
        assert!(flags.recording_active);
        assert!(!flags.recording_detected);
        diagnostics += flags.diagnostic as u32;
    }
    assert_eq!(diagnostics, 2);
}

fn mac_engine(shared: bool) -> MacEngine<u32> {
    let input = Some("BlackHole 2ch".to_string());
    let output = Some(if shared { "BlackHole 2ch" } else { "BlackHole 16ch" }.to_string());
    let plan = plan_chains(&input, &output, Some(3), Some(4), true);
    MacEngine::new(plan, NANOS_PER_SEC)
}

#[test]
fn chains_are_planned_from_the_devices() {
    let bh = Some("BlackHole 2ch".to_string());
    let plan = plan_chains(&bh, &bh, Some(1), Some(1), true);
    assert!(plan.has_playback && plan.shared && plan.auto_capture && plan.auto_playback);
    let plan = plan_chains(&bh, &None, Some(1), None, true);
    assert!(plan.has_playback && !plan.shared && !plan.auto_capture && plan.auto_playback);
    let plan = plan_chains(&None, &bh, None, Some(1), false);
    assert!(!plan.has_playback && !plan.shared && !plan.auto_capture && !plan.auto_playback);
    assert_eq!(detection_note(None, None, true), DetectionNote::NoDevice);
    assert_eq!(detection_note(Some(1), None, false), DetectionNote::Unavailable);
    assert_eq!(detection_note(None, Some(1), true), DetectionNote::Active);
}

#[test]
fn demand_starts_and_stops_the_recording_chain() {
    let mut e = mac_engine(false);
    assert!(e.poll_due(NANOS_PER_SEC), "the first pass polls");
    assert!(!e.poll_due(NANOS_PER_SEC + 1));
    assert_eq!(e.capture_polled(None), StreamAction::Keep);
    assert_eq!(e.capture_polled(Some(true)), StreamAction::Start);
    assert_eq!(e.recording_started(false), StreamAction::Keep);
    assert!(!e.recording.active);
    assert_eq!(e.recording_started(true), StreamAction::Keep);
    assert_eq!(e.capture_polled(Some(true)), StreamAction::Keep);
    e.recording.feed(&[1]);
    assert_eq!(e.capture_polled(Some(false)), StreamAction::Stop);
    assert_eq!(e.recording.input.len(), 0);
}

#[test]
fn a_shared_device_is_left_to_recording() {
    let mut e = mac_engine(true);
    assert_eq!(e.playback_polled(Some(true)), StreamAction::Start);
    assert_eq!(e.playback_started(true), StreamAction::Keep);
    assert!(e.playback.active);
    e.playback.feed(&[1, 2]);
    assert_eq!(e.capture_polled(Some(true)), StreamAction::Start);
    assert!(e.playback.active, "playback goes on until recording has started");
    assert_eq!(e.recording_started(false), StreamAction::Keep);
    assert!(e.playback.active && !e.recording.active, "recording could not be opened");
    assert_eq!(e.playback.input.len(), 2);
    assert_eq!(e.playback_polled(Some(true)), StreamAction::Keep);
    assert_eq!(e.capture_polled(Some(true)), StreamAction::Start);
    assert_eq!(e.recording_started(true), StreamAction::Stop);
    assert!(e.recording.active && !e.playback.active, "playback has given way");
    assert_eq!(e.playback.input.len(), 0);
    assert!(e.yielded());
    assert_eq!(e.playback_polled(Some(true)), StreamAction::Keep);
    assert_eq!(e.playback_started(true), StreamAction::Stop, "streams opened too late are dropped");
    assert!(!e.playback.active);

    let mut e = mac_engine(true);
    e.playback_polled(Some(true));
    e.playback_started(true);
    assert_eq!(
        e.command(mac::Cmd::SetMicCapture(true)),
        mac::CmdAction::Recording(StreamAction::Start)
    );
    assert!(e.playback.active);
    assert_eq!(e.recording_started(true), StreamAction::Stop);
    assert!(e.recording.active && !e.playback.active);

    let mut e = mac_engine(false);
    assert_eq!(e.recording_started(true), StreamAction::Keep);
    assert!(!e.yielded());
    assert_eq!(e.playback_polled(Some(true)), StreamAction::Start);
    assert_eq!(e.playback_started(true), StreamAction::Keep);
    assert!(e.recording.active && e.playback.active, "two devices serve both chains");
}

#[test]
fn choosing_a_device_restarts_only_a_running_chain() {
    let mut e = mac_engine(false);
    assert_eq!(e.command(mac::Cmd::SetSink("hdmi".to_string())), mac::CmdAction::Done);
    assert_eq!(e.sink.as_deref(), Some("hdmi"));
    assert_eq!(e.command(mac::Cmd::SetMicCapture(true)), mac::CmdAction::Recording(StreamAction::Start));
    e.recording_started(true);
    assert_eq!(e.command(mac::Cmd::SetMicCapture(true)), mac::CmdAction::Done);
    assert_eq!(
        e.command(mac::Cmd::SetSource("usb".to_string())),
        mac::CmdAction::Recording(StreamAction::Restart)
    );
    assert!(!e.recording.active);
    e.recording_started(true);
    assert_eq!(e.command(mac::Cmd::SetMicCapture(false)), mac::CmdAction::Recording(StreamAction::Stop));
    assert_eq!(e.command(mac::Cmd::EnumerateDevices), mac::CmdAction::ReportDevices);
    e.command(mac::Cmd::SetBypass(true));
    assert!(e.playback_bypass && e.recording_bypass);
    e.command(mac::Cmd::SetPlaybackBypass(false));
    assert!(!e.playback_bypass && e.recording_bypass);
    e.command(mac::Cmd::SetRecordingBypass(false));
    assert!(!e.recording_bypass);
    e.command(mac::Cmd::Shutdown);
    assert!(e.shutdown);
    e.playback_polled(Some(true));
    e.playback_started(true);
    assert_eq!(
        e.command(mac::Cmd::SetSink("usb".to_string())),
        mac::CmdAction::Playback(StreamAction::Restart)
    );
    assert!(e.idle());
    assert!(e.status_due(NANOS_PER_SEC + STATUS_INTERVAL));
    assert!(!e.status_due(NANOS_PER_SEC + STATUS_INTERVAL + 1));
}

#[test]
fn a_running_chain_moves_audio_from_ring_to_ring() {
    let mut e = mac_engine(false);
    e.recording_started(true);
    let (mut device_in, mut cons) = open_ring(RINGBUF_CAP);
    let (mut prod, mut device_out) = open_ring(RINGBUF_CAP);
    let samples: Vec<u32> = (1..=FRAME_SIZE as u32 + 5).collect();
    feed(&mut device_in, &samples);
    let mut temp = vec![0; 4096];
    let mut meter = meter();
    let done = mac::service_chain(
        &mut e.recording,
        &mut cons,
        &mut prod,
        &mut temp,
        swap,
        false,
        &level_of,
        &mut meter,
    );
    assert_eq!((meter.input, meter.output, meter.count), (3, 3, 2));
    assert_eq!(done.dropped, 0);
    assert!(matches!(done.outcome, FrameOutcome::Denoised { .. }));
    assert_eq!(e.recording.input.len(), 5);
    let mut out = vec![0; 3 * FRAME_SIZE];
    assert_eq!(upalla::ring::play(&mut device_out, &mut out), 3 * FRAME_SIZE);
    assert_eq!(&out[2 * FRAME_SIZE..2 * FRAME_SIZE + 4], &[2, 1, 4, 3]);
}

#[test]
fn the_single_chain_filter_takes_one_frame_at_a_time() {
    let mut f = coreaudio::CaFilter::new(0);
    let samples: Vec<u32> = (0..(10 * FRAME_SIZE + 1) as u32).collect();
    f.chain.feed(&samples);
    let mut meter = meter();
    let turn = f.turn(swap, true, &level_of, &mut meter);
    assert_eq!(turn.dropped, 2 * FRAME_SIZE, "the oldest frames are dropped");
    assert!(matches!(turn.outcome, FrameOutcome::Denoised { .. }));
    assert_eq!(f.chain.input.len(), 7 * FRAME_SIZE + 1);
    let first = (2 * FRAME_SIZE) as u32;
    assert_eq!(f.chain.output.take_available(2), vec![first + 1, first]);
    assert!(!f.idle());
    let turn = f.turn(swap, false, &level_of, &mut meter);
    assert_eq!(turn.dropped, 0);
    assert_eq!(meter.count, 4);
    assert!(matches!(turn.outcome, FrameOutcome::Bypassed { .. }));
    f.sink_opened();
    assert_eq!(f.chain.output.len(), 0);
    f.source_opened();
    assert_eq!(f.chain.input.len(), 0);
    assert!(f.idle());
    assert!(matches!(f.turn(swap, true, &level_of, &mut meter).outcome, FrameOutcome::Starved));
    assert!(matches!(f.command(coreaudio::Cmd::SetSink("a".to_string())), coreaudio::CmdAction::OpenSink(n) if n == "a"));
    assert!(matches!(f.command(coreaudio::Cmd::SetSource("b".to_string())), coreaudio::CmdAction::OpenSource(n) if n == "b"));
    assert!(matches!(f.command(coreaudio::Cmd::EnumerateDevices), coreaudio::CmdAction::ReportDevices));
    assert!(matches!(
        f.command(coreaudio::Cmd::SwitchModel(Model::Custom("m".into()))),
        coreaudio::CmdAction::RebuildDenoiser(Model::Custom(_))
    ));
    assert!(matches!(f.command(coreaudio::Cmd::Shutdown), coreaudio::CmdAction::Done));
    assert!(f.shutdown);
    assert!(f.status_due(STATUS_INTERVAL));
    assert!(!f.status_due(STATUS_INTERVAL));
}

#[test]
fn models_have_labels() {
    assert_eq!(Model::default().label(), "Standard");
    assert_eq!(Model::Custom("x.tar.gz".into()).label(), "Custom");
}
