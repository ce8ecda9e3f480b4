use std::collections::VecDeque;
use upalla::block::{Engines, Processed};
use upalla::chunk::{StereoChunk, CHUNK, FRAME_SIZE};
use upalla::config::{DF_BINS, DF_ORDER, FREQ_BINS, HOP_SIZE, TOTAL_LATENCY_SAMPLES};
use upalla::denoiser::Denoiser;
use upalla::model::Model;
use upalla::pipewire::{AppData, OUT_CAP, STATE_PAUSED};
use upalla::plugin::{
    choose_backend, has_model, model_dirs, Backend, UpallaPlugin, BATCH_FRAMES, GRACE_BLOCKS,
    HISTORY_CAP,
};
use upalla::queue::{
    denoise_fetched, run_fetched, GpuResponse, GpuTask, Worker, WorkerChannel, WorkerTurn, QCAP,
    TASK_CAP,
};
use upalla::wav::{
    chunk_at, denoise_stereo, merge_channels, split_channels, stereo_from, stored_stereo,
};

fn chunk(left: u32, right: u32) -> StereoChunk<u32> {
    StereoChunk { left: [left; CHUNK], right: [right; CHUNK] }
}

fn swapped(c: &StereoChunk<u32>) -> Result<StereoChunk<u32>, &'static str> {
    Ok(StereoChunk { left: c.right, right: c.left })
}

#[test]
fn chunks_go_to_the_worker_and_back() {
    let mut here = Worker::new();
    let mut there = here.share();
    assert!(matches!(there.turn(swapped), WorkerTurn::Idle));
    assert!(here.send(chunk(1, 2)).is_none());
    assert!(here.send(chunk(3, 4)).is_none());
    assert!(here.recv().is_none());
    assert!(matches!(there.turn(swapped), WorkerTurn::Denoised(true)));
    let back = here.recv().expect("a denoised chunk");
    assert_eq!((back.left[0], back.right[0]), (2, 1));
    match there.turn(|_: &StereoChunk<u32>| Err("broken")) {
        WorkerTurn::Failed(e) => assert_eq!(e, "broken"),
        _ => panic!("the denoiser must fail"),
    }
    assert!(here.recv().is_none(), "a chunk that failed is lost");
}

#[test]
fn a_full_queue_refuses_chunks() {
    let mut here = Worker::new();
    let mut there = here.share();
    for k in 0..QCAP as u32 {
        assert!(here.send(chunk(k, k)).is_none());
    }
    assert_eq!(here.send(chunk(99, 99)).expect("no room").left[0], 99);
    for _ in 0..QCAP {
        assert!(matches!(there.turn(swapped), WorkerTurn::Denoised(true)));
    }
    assert!(here.send(chunk(7, 8)).is_none());
    assert!(matches!(there.turn(swapped), WorkerTurn::Denoised(false)), "no room for the result");
    assert!(here.send(chunk(7, 8)).is_none());
    let mut rounds = 0;
    while there.discard() {
        rounds += 1;
    }
    assert_eq!(rounds, QCAP);
    assert!(here.recv().is_none());
}

fn task(n: usize) -> GpuTask<u32> {
    GpuTask { spec_real: vec![vec![n as u32]], spec_imag: vec![vec![0]], num_frames: n }
}

#[test]
fn old_batches_make_room_for_new_ones() {
    let mut here = WorkerChannel::new();
    let mut there = here.share();
    for n in 1..=TASK_CAP {
        assert!(here.try_send(task(n)).is_none());
    }
    assert_eq!(here.try_send(task(9)).expect("the oldest").num_frames, 1);
    let run = |t: &GpuTask<u32>| -> Result<(Vec<u32>, Vec<u32>), &'static str> {
        Ok((vec![t.spec_real[0][0]], vec![7]))
    };
    assert_eq!(there.turn(run), Some(Ok(2)));
    let response = here.try_recv().expect("a result");
    assert_eq!((response.erb_mask, response.df_coefs, response.processed_frames), (vec![2], vec![7], 2));
    assert_eq!(there.turn(|_: &GpuTask<u32>| Err("broken")), Some(Err("broken")));
    assert!(here.try_recv().is_none());
    assert_eq!(there.turn(run), Some(Ok(9)));
    assert_eq!(there.turn(run), None);
}

#[test]
fn what_was_fetched_decides() {
    assert!(denoise_fetched(None, |_: &StereoChunk<u32>| -> Result<StereoChunk<u32>, ()> {
        panic!("there is nothing to denoise")
    })
    .is_none());
    let out = denoise_fetched(Some(chunk(1, 2)), swapped).expect("a chunk").expect("works");
    assert_eq!((out.left[0], out.right[0]), (2, 1));
    let failed = denoise_fetched(Some(chunk(1, 2)), |_: &StereoChunk<u32>| Err("broken"));
    assert_eq!(failed.expect("a chunk").err(), Some("broken"));

    let run = |t: &GpuTask<u32>| -> Result<(Vec<u32>, Vec<u32>), &'static str> {
        Ok((vec![t.spec_real[0][0]], vec![8, 9]))
    };
    assert!(run_fetched(None, run).is_none());
    let response = run_fetched(Some(task(6)), run).expect("a batch").expect("works");
    assert_eq!((response.erb_mask, response.df_coefs, response.processed_frames), (vec![6], vec![8, 9], 6));
    let failed = run_fetched(Some(task(6)), |_: &GpuTask<u32>| Err("broken"));
    assert_eq!(failed.expect("a batch").err(), Some("broken"));
}

#[test]
fn blocks_of_any_length_become_chunks() {
    let worker: Worker<u32> = Worker::new();
    let mut there = worker.share();
    let mut data = AppData::new(Some(worker), false);
    let input: Vec<u32> = (0..FRAME_SIZE as u32 + 3).collect();
    assert_eq!(data.on_process(&input, 0), vec![0; FRAME_SIZE + 3], "nothing is ready yet");
    assert_eq!(data.pending.len(), 2, "an odd sample is left out");
    assert!(matches!(there.turn(swapped), WorkerTurn::Denoised(true)));
    let out = data.on_process(&[50, 60, 70, 80], 0);
    assert_eq!(out, vec![1, 0, 3, 2]);
    assert_eq!(data.pending.len(), 6);
    assert_eq!(data.out.len(), FRAME_SIZE - 4);
    let out = data.on_process(&vec![0; FRAME_SIZE], 9);
    assert_eq!(&out[..2], &[5, 4]);
    assert_eq!(&out[FRAME_SIZE - 5..], &[FRAME_SIZE as u32 - 2, 9, 9, 9, 9], "silence fills up");
}

#[test]
fn a_pause_forgets_what_was_waiting() {
    let worker: Worker<u32> = Worker::new();
    let mut there = worker.share();
    let mut data = AppData::new(Some(worker), false);
    data.on_process(&vec![1; FRAME_SIZE + 8], 0);
    there.turn(swapped);
    data.on_process(&[1, 1], 0);
    assert!(data.out.len() > 0);
    assert!(!data.state_changed(1));
    assert!(data.state_changed(STATE_PAUSED));
    assert!(data.needs_reset);
    assert_eq!(data.on_process(&[1, 1], 0), vec![0, 0]);
    assert_eq!(data.pending.len(), 2);
    assert!(!data.needs_reset);
}

#[test]
fn without_a_worker_blocks_pass_through() {
    let mut data: AppData<u32> = AppData::new(None, false);
    assert_eq!(data.on_process(&[1, 2, 3], 0), vec![1, 2, 3]);
    let mut data = AppData::new(Some(Worker::new()), true);
    assert_eq!(data.on_process(&[4u32, 5], 0), vec![4, 5]);
    assert_eq!(data.pending.len(), 0);
}

#[test]
fn waiting_output_is_bounded() {
    let worker: Worker<u32> = Worker::new();
    let mut there = worker.share();
    let mut feeder = worker.share();
    let mut data = AppData::new(Some(worker), false);
    for k in 0..QCAP as u32 {
        assert!(feeder.send(chunk(k, k)).is_none());
        assert!(matches!(there.turn(swapped), WorkerTurn::Denoised(true)));
    }
    data.on_process(&[], 0);
    assert_eq!(data.out.len(), OUT_CAP / FRAME_SIZE * FRAME_SIZE);
}

fn row(x: u32) -> Vec<u32> {
    vec![x; FREQ_BINS]
}

#[test]
fn the_plugin_adapts_to_its_channels() {
    let mut p: UpallaPlugin<u32> = UpallaPlugin::new();
    assert_eq!((p.channels, p.input_buf.len()), (1, 2));
    assert!(p.reinit_channels(1, false), "nothing was set up yet");
    assert_eq!(p.input_buf.len(), 1);
    assert!(!p.reinit_channels(1, true));
    p.push_spectrum(vec![row(1)], vec![row(2)]);
    p.push_input(0, &[1, 2, 3]);
    assert!(p.reinit_channels(2, true));
    assert_eq!((p.channels, p.input_buf.len(), p.spec_real_history.len()), (2, 2, 0));
    assert!(p.input_buf[0].is_empty());
    assert_eq!(p.latency() as usize, TOTAL_LATENCY_SAMPLES);
}

#[test]
fn hops_are_analysed_and_sent_in_batches() {
    let mut p: UpallaPlugin<u32> = UpallaPlugin::new();
    p.reinit_channels(2, false);
    let n = BATCH_FRAMES * HOP_SIZE;
    let samples: Vec<u32> = (0..n as u32 + 5).collect();
    p.push_input(0, &samples);
    p.push_input(1, &samples[..HOP_SIZE / 2]);
    let forward = |hops: u32, hop: &Vec<u32>| {
        (hops + 1, (row(hop[0]), row(1000 * hops + hop[HOP_SIZE - 1])))
    };
    let mut states = vec![0, 50, 7];
    let mut hops = 0;
    while p.analyse_hop(&forward, &mut states, 0) {
        hops += 1;
        if hops < BATCH_FRAMES {
            assert!(p.next_task(true).is_none());
        }
    }
    assert_eq!(hops, BATCH_FRAMES);
    assert_eq!(states, vec![8, 58, 7], "each channel goes on from its own state");
    assert_eq!(p.spec_imag_history[0][0], row(HOP_SIZE as u32 - 1));
    assert_eq!(p.spec_imag_history[0][1], row(50_000), "a short channel is filled up");
    assert_eq!(p.spec_imag_history[1][0], row(1000 + 2 * HOP_SIZE as u32 - 1));
    assert_eq!(p.input_buf[0].len(), 5);
    assert_eq!(p.frames_to_send(), BATCH_FRAMES);
    assert!(p.next_task(false).is_none());
    let t = p.next_task(true).expect("a batch");
    assert_eq!(t.num_frames, BATCH_FRAMES);
    assert_eq!(t.spec_real[1], row(HOP_SIZE as u32));
    assert_eq!(t.spec_imag[1], row(1000 + 2 * HOP_SIZE as u32 - 1), "the first channel is sent");
    assert!(p.pending_task);
    assert_eq!(p.frames_to_send(), 0);
    assert!(p.next_task(true).is_none());
    p.reset();
    assert!(!p.pending_task);
    assert_eq!(p.spec_real_history.len(), 0);
    assert!(p.next_hop(0).is_none());
}

#[test]
fn the_most_recent_spectra_are_kept() {
    let mut p: UpallaPlugin<u32> = UpallaPlugin::new();
    for k in 0..HISTORY_CAP as u32 {
        p.push_spectrum(vec![row(k)], vec![row(0)]);
    }
    p.next_task(true).expect("a batch");
    assert_eq!(p.last_sent_frame, HISTORY_CAP);
    for k in 0..3 {
        p.push_spectrum(vec![row(100 + k)], vec![row(0)]);
    }
    assert_eq!(p.spec_real_history.len(), HISTORY_CAP);
    assert_eq!(p.spec_real_history[0][0], row(3));
    assert_eq!(p.last_sent_frame, HISTORY_CAP - 3);
    assert_eq!(p.frames_to_send(), 3);
    let (reals, imags) = p.channel_history(0);
    assert_eq!((reals.len(), imags.len()), (HISTORY_CAP, HISTORY_CAP));
    assert_eq!(reals[HISTORY_CAP - 1], row(102));
}

#[test]
fn results_are_applied_to_kept_spectra() {
    let mut p: UpallaPlugin<i64> = UpallaPlugin::new();
    p.reinit_channels(2, false);
    for k in 1..=3 {
        p.push_spectrum(vec![vec![k; FREQ_BINS], vec![10 * k; FREQ_BINS]], vec![vec![0; FREQ_BINS], vec![0; FREQ_BINS]]);
    }
    assert_eq!(p.frames_to_apply(), 0);
    let inverse = |sum: i64, re: &Vec<i64>, _im: &Vec<i64>| {
        (sum + re[DF_BINS], vec![sum, re[0], re[DF_BINS]])
    };
    let mut states = vec![0, 100];
    p.try_apply_results(&inverse, &mut states, 2, 0);
    assert_eq!(states, vec![0, 100]);
    assert_eq!(p.output_buf[0].len(), 0, "there is no result yet");
    let frames = 2;
    let mut coefs = vec![0i64; DF_ORDER * frames * DF_BINS * 2];
    for n in 0..DF_ORDER {
        for t in 0..frames {
            coefs[((n * frames + t) * DF_BINS) * 2] = 1;
        }
    }
    p.pending_task = true;
    p.accept_response(GpuResponse { erb_mask: vec![], df_coefs: coefs, processed_frames: frames });
    assert!(!p.pending_task);
    assert_eq!(p.frames_to_apply(), frames);
    p.try_apply_results(&inverse, &mut states, 2, 0);
    let out: Vec<i64> = p.output_buf[0].iter().copied().collect();
    assert_eq!(out, vec![0, 1 + 2, 1, 1, 1 + 2, 2]);
    let out: Vec<i64> = p.output_buf[1].iter().copied().collect();
    assert_eq!(out, vec![100, 30, 10, 110, 30, 20]);
    assert_eq!(states, vec![3, 130], "each channel goes on from its own state");
}

#[test]
fn output_is_muted_after_a_while_without_voice() {
    let mut p: UpallaPlugin<u32> = UpallaPlugin::new();
    p.push_output(0, &[1, 2, 3, 4, 5, 6]);
    assert_eq!(p.drain_output(0, 2, 0), vec![0, 0], "no voice yet");
    p.apply_vad_gating(true);
    assert_eq!(p.drain_output(0, 2, 0), vec![3, 4]);
    for _ in 0..GRACE_BLOCKS - 1 {
        p.apply_vad_gating(false);
    }
    assert_eq!(p.drain_output(0, 1, 0), vec![5]);
    p.apply_vad_gating(false);
    assert_eq!(p.drain_output(0, 3, 0), vec![0, 0, 0]);
    p.apply_vad_gating(false);
    assert_eq!(p.vad_grace_remaining, 0);
    p.apply_vad_gating(true);
    assert_eq!(p.drain_output(0, 2, 9), vec![9, 9], "nothing is waiting");
}

#[test]
fn the_fallback_denoises_the_first_channel() {
    let mut p: UpallaPlugin<u32> = UpallaPlugin::new();
    p.reinit_channels(2, false);
    p.push_input(0, &vec![3; 2 * HOP_SIZE + 1]);
    p.push_input(1, &vec![4; HOP_SIZE + 2]);
    let denoise = |n: u32, hop: &Vec<u32>| (n + 1, vec![hop[0] * 2, n]);
    assert_eq!(p.process_cpu_fallback(&denoise, 1, 0), (3, 2));
    for ch in 0..2 {
        let out: Vec<u32> = p.output_buf[ch].iter().copied().collect();
        assert_eq!(out, vec![6, 1, 6, 2]);
    }
    assert_eq!((p.input_buf[0].len(), p.input_buf[1].len()), (1, 0));
}

#[test]
fn models_are_looked_for_in_order() {
    let dirs = model_dirs(true);
    assert_eq!(dirs.len(), 5);
    assert!(dirs[0].under_home);
    assert_eq!(dirs[0].path, ".local/share/upalla");
    let dirs = model_dirs(false);
    assert_eq!(dirs.len(), 3);
    assert_eq!(dirs[2].path, "upalla/models");
    assert!(has_model(true, true, true));
    assert!(!has_model(true, false, true));
    assert_eq!(choose_backend(true, true, true), Backend::Worker);
    assert_eq!(choose_backend(true, false, true), Backend::Cpu);
    assert_eq!(choose_backend(true, false, false), Backend::Silent);
    assert_eq!(choose_backend(false, true, true), Backend::PassThrough);
}

#[test]
fn files_are_denoised_chunk_by_chunk() {
    let (l, r) = split_channels(&[1, 2, 3, 4, 5, 6, 7], 3);
    assert_eq!((l, r), (vec![1, 4], vec![2, 5]));
    let (l, r) = split_channels(&[1, 2, 3], 1);
    assert_eq!((l, r), (vec![1, 2, 3], vec![1, 2, 3]));
    assert_eq!(merge_channels(&[1, 2, 3], &[10, 20]), vec![1, 10, 2, 20]);

    let left: Vec<u32> = (0..2 * CHUNK as u32 + 7).collect();
    let right: Vec<u32> = left.iter().map(|x| x + 10_000).collect();
    let c = chunk_at(&left, &right, 1);
    assert_eq!((c.left[0], c.right[CHUNK - 1]), (CHUNK as u32, 10_000 + 2 * CHUNK as u32 - 1));
    let step = |n: u32, c: &StereoChunk<u32>| (n + 1, swapped(c));
    let (n, out) = denoise_stereo(&left, &right, 5, step);
    let (l, r) = out.expect("works");
    assert_eq!(n, 7, "one step per chunk");
    assert_eq!((l.len(), r.len()), (2 * CHUNK, 2 * CHUNK));
    assert_eq!(&l[..], &right[..2 * CHUNK]);
    assert_eq!(&r[..], &left[..2 * CHUNK]);
    let (n, out) = denoise_stereo(&left, &right[..2 * CHUNK], 5, step);
    assert_eq!((n, out.expect("works").1.len()), (7, 2 * CHUNK), "the rest is never read");
    let failing = |n: u32, c: &StereoChunk<u32>| {
        (n + 1, if n == 6 { Err("second") } else { swapped(c) })
    };
    assert_eq!(denoise_stereo(&left, &right, 5, failing), (7, Err("second")));
    assert_eq!(denoise_stereo(&left, &right, 6, failing), (7, Err("second")), "the first chunk fails");
    assert_eq!(denoise_stereo(&left[..5], &right[..5], 6, failing), (6, Ok((vec![], vec![]))));
}

/// Stands in for the network: each channel is its input less a share of the samples before it, and what
/// it has run in all counts.
#[derive(Debug, PartialEq)]
struct Echo {
    last: Vec<f32>,
    frames: u32,
}

fn echo(mut net: Echo, rows: &Vec<Vec<f32>>) -> (Echo, Result<Vec<Vec<f32>>, String>) {
    if rows.len() != net.last.len() {
        return (net, Err("another number of channels".to_string()));
    }
    net.frames += 1;
    let mut out = Vec::new();
    for (c, row) in rows.iter().enumerate() {
        let mut channel = Vec::new();
        for x in row {
            channel.push(x - 0.3 * net.last[c] / net.frames as f32);
            net.last[c] = *x;
        }
        out.push(channel);
    }
    (net, Ok(out))
}

fn build_echo(level: &f32, channels: usize) -> Result<Echo, String> {
    Ok(Echo { last: vec![*level; channels], frames: 0 })
}

fn new_denoiser(channels: usize) -> Denoiser<Echo, f32> {
    let load = |model: &Model| match model {
        Model::DeepFilterNet3 => Ok(0.25),
        Model::Custom(path) => Err(format!("no model at {}", path.display())),
    };
    Denoiser::new(&Model::default(), channels, load, &build_echo).expect("build denoiser")
}

/// Deterministic pseudo-noise plus a tone.
fn test_frames(n: usize) -> Vec<StereoChunk<f32>> {
    let mut state = 0x2545_F491u32;
    let mut phase = 0.0f32;
    (0..n)
        .map(|_| {
            let mut chunk = StereoChunk { left: [0.0; CHUNK], right: [0.0; CHUNK] };
            for i in 0..CHUNK {
                state = state.wrapping_mul(1_664_525).wrapping_add(1_013_904_223);
                let noise = (state >> 8) as f32 / (1u32 << 24) as f32 - 0.5;
                phase += 220.0 * 2.0 * std::f32::consts::PI / 48_000.0;
                let v = 0.3 * phase.sin() + 0.1 * noise;
                chunk.left[i] = v;
                chunk.right[i] = v * 0.8;
            }
            chunk
        })
        .collect()
}

fn process_all(
    mut denoiser: Denoiser<Echo, f32>,
    frames: &[StereoChunk<f32>],
) -> (Denoiser<Echo, f32>, Vec<f32>) {
    let mut out = Vec::with_capacity(frames.len() * CHUNK * 2);
    for frame in frames {
        let (next, enhanced) = denoiser.process_stereo(frame, echo);
        let enhanced = enhanced.expect("process frame");
        denoiser = next;
        out.extend_from_slice(&enhanced.left);
        out.extend_from_slice(&enhanced.right);
    }
    (denoiser, out)
}

/// A reset must leave the denoiser exactly as freshly built, however often it comes.
#[test]
fn reset_is_equivalent_to_a_fresh_denoiser() {
    let frames = test_frames(20);
    let (_, expected) = process_all(new_denoiser(2), &frames);
    assert!(
        expected.iter().any(|&s| s.abs() > 1e-6),
        "test signal must survive denoising, else the comparison is vacuous"
    );

    for resets in [1usize, 3] {
        let mut denoiser = new_denoiser(2);
        for _ in 0..resets {
            denoiser.reset(&build_echo).expect("reset");
        }
        assert_eq!(
            process_all(denoiser, &frames).1,
            expected,
            "output differs after {resets} reset(s)"
        );
    }
}

/// A reset part-way through a stream must also return to the fresh state, so a restarted chain does not
/// inherit the previous session's history.
#[test]
fn reset_clears_state_accumulated_while_running() {
    let frames = test_frames(12);
    let (_, expected) = process_all(new_denoiser(2), &frames);

    let (mut reused, _) = process_all(new_denoiser(2), &test_frames(15)); // dirty the internal state
    assert_ne!(reused.network, new_denoiser(2).network);
    reused.reset(&build_echo).expect("reset");

    assert_eq!(process_all(reused, &frames).1, expected);
}

#[test]
fn a_failed_reset_leaves_the_denoiser_as_it_was() {
    let (mut denoiser, _) = process_all(new_denoiser(2), &test_frames(3));
    let (same, _) = process_all(new_denoiser(2), &test_frames(3));
    let broken = |level: &f32, channels: usize| -> Result<Echo, String> {
        Err(format!("{level} {channels}"))
    };
    assert_eq!(denoiser.reset(&broken), Err("0.25 2".to_string()));
    assert_eq!(denoiser.network, same.network);
    let missing = Model::Custom("x".into());
    let load = |_: &Model| -> Result<f32, String> { Err("gone".to_string()) };
    assert_eq!(Denoiser::new(&missing, 1, load, &build_echo).err(), Some("gone".to_string()));
    let load = |_: &Model| -> Result<f32, String> { Ok(1.5) };
    assert_eq!(Denoiser::new(&missing, 1, load, &broken).err(), Some("1.5 1".to_string()));
}

/// Mono and stereo paths must both run and preserve a real signal.
#[test]
fn mono_path_processes_a_frame() {
    let mut denoiser = new_denoiser(1);
    let frames = test_frames(6);
    let mut output = [0.0f32; CHUNK];
    for frame in &frames {
        let (next, n) = denoiser.process_mono(&frame.left, &mut output, echo);
        denoiser = next;
        assert_eq!(n.expect("process mono"), CHUNK);
    }
    assert!(output.iter().all(|s| s.is_finite()));
    assert_eq!(denoiser.network.frames, 6);
}

#[test]
fn channels_are_rows_to_the_denoiser() {
    type Answer = (u32, Result<Vec<Vec<u32>>, &'static str>);
    let build = |p: &u32, channels: usize| -> Result<u32, &'static str> { Ok(p + channels as u32) };
    let new = || Denoiser::new(&Model::default(), 2, |_: &Model| Ok(40u32), &build).expect("works");
    let run = |n: u32, rows: &Vec<Vec<u32>>| -> Answer {
        assert_eq!((n, rows.len(), rows[0].len()), (42, 2, CHUNK));
        (n + 1, Ok(vec![vec![rows[0][0] + 1; CHUNK], vec![rows[1][0] + 2; CHUNK]]))
    };
    let (next, out) = new().process_stereo(&chunk(10, 20), run);
    let out = out.expect("works");
    assert_eq!((out.left[CHUNK - 1], out.right[0]), (11, 22));
    assert_eq!((next.network, next.params, next.channels), (43, 40, 2));
    let broken = |n: u32, _: &Vec<Vec<u32>>| -> Answer { (n + 1, Err("broken")) };
    let (next, out) = next.process_stereo(&chunk(1, 1), broken);
    assert_eq!((next.network, out.err()), (44, Some("broken")));
    let mut output = [0u32; CHUNK];
    let triple = |n: u32, rows: &Vec<Vec<u32>>| -> Answer {
        assert_eq!(rows.len(), 1);
        (n, Ok(vec![rows[0].iter().map(|x| x * 3).collect()]))
    };
    let (next, produced) = next.process_mono(&[5; CHUNK], &mut output, triple);
    assert_eq!(produced, Ok(CHUNK));
    assert_eq!(output[7], 15);
    let (_, produced) = next.process_mono(&[5; CHUNK], &mut output, broken);
    assert_eq!(produced, Err("broken"));
    assert_eq!(output[7], 15);
}

fn spectrum(n: i64, hop: &Vec<i64>) -> (i64, (Vec<i64>, Vec<i64>)) {
    (n + 1, (vec![hop[0]; FREQ_BINS], vec![n; FREQ_BINS]))
}

fn audio(n: i64, re: &Vec<i64>, _im: &Vec<i64>) -> (i64, Vec<i64>) {
    (n + 1, vec![re[DF_BINS] + n; 3])
}

fn doubled(n: i64, hop: &Vec<i64>) -> (i64, Vec<i64>) {
    (n + 1, hop.iter().map(|x| 2 * x + n).collect())
}

fn loud(buf: &VecDeque<i64>) -> bool {
    buf.iter().any(|&x| x > 0)
}

fn run_block(
    p: &mut UpallaPlugin<i64>,
    engines: &mut Engines<i64, i64>,
    block: &Vec<Vec<i64>>,
    bypass: bool,
    response: Option<GpuResponse<i64>>,
) -> Processed<i64> {
    assert!(bypass || p.accepts(engines, block, &response));
    p.process(engines, block, bypass, response, &|| 0, &spectrum, &audio, &doubled, &loud, 0)
}

fn set_up(
    cpu: Option<i64>,
    has_worker: bool,
    found: bool,
) -> (UpallaPlugin<i64>, Engines<i64, i64>) {
    let (stft_in, stft_out) = (vec![7, 7], vec![7, 7]);
    (UpallaPlugin::new(), Engines { stft_in, stft_out, cpu, has_worker, found })
}

#[test]
fn a_plugin_without_a_model_passes_audio_through() {
    let (mut p, mut engines) = set_up(None, false, false);
    let block = vec![vec![1, 2, 3], vec![4, 5, 6], vec![7, 8, 9]];
    let out = run_block(&mut p, &mut engines, &block, false, None);
    assert_eq!(out.output, Some(vec![vec![1, 2, 3], vec![4, 5, 6]]), "two channels are handled");
    assert!(out.task.is_none());
    assert_eq!(p.channels, 2);
    assert_eq!(engines.stft_in, vec![0, 0], "the transforms are fresh ones");
    assert!(p.input_buf[0].is_empty() && p.spec_real_history.is_empty());
    assert!(run_block(&mut p, &mut engines, &block, true, None).output.is_none());
}

#[test]
fn a_plugin_whose_model_does_not_load_is_silent() {
    let (mut p, mut engines) = set_up(None, false, true);
    for k in 1..4 {
        let block = vec![vec![5; 2 * HOP_SIZE], vec![9; 2 * HOP_SIZE]];
        let out = run_block(&mut p, &mut engines, &block, false, None);
        assert_eq!(out.output, Some(vec![vec![0; 2 * HOP_SIZE]; 2]));
        assert!(out.task.is_none());
        assert_eq!(p.spec_real_history.len(), 2 * k, "spectra are kept all the same");
    }
}

#[test]
fn a_bypassed_plugin_only_adapts_to_its_channels() {
    let (mut p, mut engines) = set_up(Some(1), false, true);
    let out = run_block(&mut p, &mut engines, &vec![vec![1], vec![2]], true, None);
    assert!(out.output.is_none() && out.task.is_none());
    assert_eq!((p.channels, p.input_buf.len(), engines.stft_out.len()), (2, 2, 2));
    assert!(p.input_buf[0].is_empty());
    run_block(&mut p, &mut engines, &vec![], true, None);
    assert_eq!((p.channels, engines.stft_in.len()), (0, 0));
}

#[test]
fn the_audio_thread_denoises_where_no_worker_does() {
    let (mut p, mut engines) = set_up(Some(1), false, true);
    let n = HOP_SIZE + 2;
    let block = vec![vec![5; n], vec![9; n]];
    let out = run_block(&mut p, &mut engines, &block, false, None).output.expect("audio");
    assert_eq!(out[0], out[1], "every channel gets the first, denoised");
    assert_eq!((out[0].len(), out[0][HOP_SIZE - 1], out[0][HOP_SIZE]), (n, 11, 0));
    assert_eq!(engines.cpu, Some(2));
    assert_eq!((p.input_buf[0].len(), p.spec_real_history.len()), (2, 0));
    let block = vec![vec![5; HOP_SIZE], vec![9; HOP_SIZE]];
    let out = run_block(&mut p, &mut engines, &block, false, None).output.expect("audio");
    assert_eq!(out[0][0], 12, "the state went on");
}

#[test]
fn a_worker_is_sent_batches_and_its_results_are_played() {
    let (mut p, mut engines) = set_up(None, true, true);
    let block = vec![vec![5; (BATCH_FRAMES - 1) * HOP_SIZE]];
    let out = run_block(&mut p, &mut engines, &block, false, None);
    assert!(out.task.is_none());
    assert_eq!(engines.stft_in[0], 7 + BATCH_FRAMES as i64 - 1);
    assert!(out.output.expect("audio")[0].iter().all(|&x| x == 0));
    let block = vec![vec![6; HOP_SIZE]];
    let task = run_block(&mut p, &mut engines, &block, false, None).task.expect("a batch");
    assert_eq!((task.num_frames, task.spec_real[0][0]), (BATCH_FRAMES, 5));
    assert!(p.pending_task);

    let frames = 2;
    let response = |coefs: usize| {
        Some(GpuResponse { erb_mask: vec![], df_coefs: vec![0; coefs], processed_frames: frames })
    };
    let whole = DF_ORDER * frames * DF_BINS * 2;
    assert!(!p.accepts(&engines, &block, &response(whole / 2)), "coefficients are missing");
    let out = run_block(&mut p, &mut engines, &block, false, response(whole));
    assert!(out.task.is_none(), "one new spectrum makes no batch");
    assert!(!p.pending_task);
    let out = out.output.expect("audio");
    assert_eq!(&out[0][..7], &[12, 12, 12, 13, 13, 13, 0]);
    assert_eq!(engines.stft_out, vec![9, 7]);
    assert_eq!(p.vad_grace_remaining, GRACE_BLOCKS);
}

#[test]
fn stored_channels_come_back_in_their_places() {
    let encode = |x: f32| (x.clamp(-1.0, 1.0) * 32767.0) as i16;
    let decode = |q: i16| q as f32 / 32767.0;
    let left = [0.5f32, -0.25, 2.0, 0.0];
    let right = [-1.0f32, 0.125, 0.75];
    let stored = stored_stereo(&left, &right, &encode);
    assert_eq!(stored, vec![16383, -32767, -8191, 4095, 32767, 24575], "as far as both reach");
    let (l, r) = stereo_from(&stored, 2, &decode);
    assert_eq!((l.len(), r.len()), (3, 3));
    for i in 0..3 {
        assert!((l[i] - left[i].clamp(-1.0, 1.0)).abs() <= 1.01 / 32767.0);
        assert!((r[i] - right[i]).abs() <= 1.01 / 32767.0);
    }
    let (l, r) = stereo_from(&[7i16, 8, 9], 1, &|q: i16| q as i32 * 10);
    assert_eq!((l, r), (vec![70, 80, 90], vec![70, 80, 90]), "a single channel serves as both");
    let (l, r) = stereo_from(&[1i16, 2, 3, 4, 5, 6, 7], 3, &|q: i16| q as i32);
    assert_eq!((l, r), (vec![1, 4], vec![2, 5]));
}
