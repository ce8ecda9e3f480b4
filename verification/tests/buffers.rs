use upalla::buffer::{AudioBuf, MAX_BUFFER_FRAMES, REMAINDER_CAP};
use upalla::bytes::{decode_samples, encode_samples, pump_read, pump_write, worth_peeking, Peek};
use upalla::chain::{process_chain, Chain, FrameOutcome};
use upalla::chunk::{StereoChunk, CHUNK, FRAME_SIZE};
use upalla::denoiser::Denoiser;
use upalla::meter::RmsMeter;
use upalla::model::Model;

/// Stands in for the network: each channel follows its input at a given rate.
struct Smoother {
    last: Vec<f32>,
    gain: f32,
}

fn smooth(mut net: Smoother, rows: &Vec<Vec<f32>>) -> (Smoother, Result<Vec<Vec<f32>>, String>) {
    let mut out = Vec::new();
    for (c, row) in rows.iter().enumerate() {
        let mut channel = Vec::new();
        for x in row {
            net.last[c] += (x - net.last[c]) * net.gain;
            channel.push(net.last[c]);
        }
        out.push(channel);
    }
    (net, Ok(out))
}

fn contents<T: Copy>(buf: &mut AudioBuf<T>) -> Vec<T> {
    let n = buf.len();
    buf.take_available(n)
}

fn compute_rms(chunk: &[f32; CHUNK]) -> f32 {
    let sum: f32 = chunk.iter().map(|&s| s * s).sum();
    (sum / chunk.len() as f32).sqrt()
}

fn divide(total: f32, n: u32) -> f32 {
    total / n as f32
}

/// The first sample of a channel, for levels that can be told apart.
fn first(channel: &[u32; CHUNK]) -> u64 {
    channel[0] as u64
}

/// One interleaved stereo frame with each channel at a constant amplitude.
fn frame_at(left: f32, right: f32) -> Vec<f32> {
    let mut frame = Vec::with_capacity(FRAME_SIZE);
    for _ in 0..CHUNK {
        frame.push(left);
        frame.push(right);
    }
    frame
}

#[test]
fn drop_excess_bounds_latency_to_whole_frames() {
    let mut buf = AudioBuf::new();
    buf.extend(&vec![0.1f32; (MAX_BUFFER_FRAMES + 4) * FRAME_SIZE]);
    let dropped = buf.drop_excess();
    assert_eq!(
        buf.len(),
        MAX_BUFFER_FRAMES * FRAME_SIZE,
        "must drop down to the watermark, in whole frames"
    );
    assert_eq!(dropped, 4 * FRAME_SIZE);
}

#[test]
fn drop_excess_keeps_an_incomplete_frame() {
    let mut buf: AudioBuf<u32> = AudioBuf::new();
    let samples: Vec<u32> = (0..(MAX_BUFFER_FRAMES * FRAME_SIZE + FRAME_SIZE + 7) as u32).collect();
    buf.extend(&samples);
    assert_eq!(buf.drop_excess(), FRAME_SIZE);
    assert_eq!(buf.len(), MAX_BUFFER_FRAMES * FRAME_SIZE + 7);
    assert_eq!(buf.take_available(1), vec![FRAME_SIZE as u32]);
    assert_eq!(buf.drop_excess(), 0);
}

#[test]
fn drain_frames_takes_the_oldest_or_nothing() {
    let mut buf: AudioBuf<u32> = AudioBuf::new();
    buf.extend(&[1, 2, 3, 4, 5]);
    assert_eq!(buf.drain_frames(6), None);
    assert_eq!(buf.len(), 5);
    assert_eq!(buf.drain_frames(2), Some(vec![1, 2]));
    assert_eq!(buf.drain_frames(0), Some(vec![]));
    assert_eq!(contents(&mut buf), vec![3, 4, 5]);
    assert!(buf.is_empty());
    assert_eq!(buf.take_available(3), Vec::<u32>::new());
}

#[test]
fn consumed_samples_are_compacted_without_losing_any() {
    let mut buf: AudioBuf<u32> = AudioBuf::new();
    let mut next_in = 0u32;
    let mut next_out = 0u32;
    for _ in 0..100 {
        let block: Vec<u32> = (0..1000).map(|i| next_in + i).collect();
        next_in += 1000;
        buf.extend(&block);
        let taken = buf.take_available(950);
        for s in taken {
            assert_eq!(s, next_out);
            next_out += 1;
        }
    }
    assert_eq!(buf.len(), (next_in - next_out) as usize);
    assert!(next_out as usize > REMAINDER_CAP);
    buf.clear();
    assert_eq!(buf.len(), 0);
}

#[test]
fn chunks_survive_interleaving() {
    let frame: Vec<u32> = (0..FRAME_SIZE as u32).collect();
    let chunk = StereoChunk::from_frame(&frame);
    assert_eq!(chunk.left[0], 0);
    assert_eq!(chunk.right[0], 1);
    assert_eq!(chunk.left[CHUNK - 1], FRAME_SIZE as u32 - 2);
    assert_eq!(chunk.right[CHUNK - 1], FRAME_SIZE as u32 - 1);
    let mut buf = AudioBuf::new();
    buf.push_chunk(&chunk);
    assert_eq!(contents(&mut buf), frame);
    let silent = StereoChunk::filled(7u32);
    assert!(silent.left.iter().chain(silent.right.iter()).all(|&s| s == 7));
}

/// In bypass the audio must come out untouched and both meters must read the input level. The RMS of
/// a constant signal is that constant, so the per-channel mean of 0.5 and 0.25 is 0.375.
#[test]
fn process_chain_bypass_passes_audio_through_and_meters_it() {
    let mut audio_in = AudioBuf::new();
    let mut audio_out = AudioBuf::new();
    let mut meter = RmsMeter::new(0.0f32);
    audio_in.extend(&frame_at(0.5, 0.25));

    let outcome: FrameOutcome<f32, ()> = process_chain(
        &mut audio_in,
        &mut audio_out,
        |_: &StereoChunk<f32>| panic!("a bypassed frame is not denoised"),
        true,
        FRAME_SIZE,
        &compute_rms,
        &mut meter,
    );

    assert!(matches!(outcome, FrameOutcome::Bypassed { .. }));
    assert_eq!(audio_out.len(), FRAME_SIZE, "frame must be copied through");
    let out = contents(&mut audio_out);
    assert_eq!(out[0], 0.5);
    assert_eq!(out[1], 0.25);
    assert_eq!(audio_in.len(), 0, "frame must be consumed");
    assert_eq!(meter.count, 2);
    assert!((meter.mean_input(divide, 0.0) - 0.375).abs() < 1e-6);
    assert!(
        (meter.mean_output(divide, 0.0) - meter.mean_input(divide, 0.0)).abs() < 1e-6,
        "bypass must report identical input and output levels"
    );
}

/// Through the denoiser every frame is consumed, gives one frame, and is counted by both meters: the
/// input meter reads the true level, whatever the network makes of the audio.
#[test]
fn process_chain_meters_real_audio_through_the_denoiser() {
    let mut audio_in = AudioBuf::new();
    let mut audio_out = AudioBuf::new();
    let mut meter = RmsMeter::new(0.0f32);
    let build = |gain: &f32, channels: usize| -> Result<Smoother, String> {
        Ok(Smoother { last: vec![0.0; channels], gain: *gain })
    };
    let mut denoiser = Some(
        Denoiser::new(&Model::default(), 2, |_: &Model| Ok(0.01), &build).expect("build denoiser"),
    );

    const FRAMES: usize = 8;
    for _ in 0..FRAMES {
        audio_in.extend(&frame_at(0.4, 0.4));
    }
    for _ in 0..FRAMES {
        process_chain(
            &mut audio_in,
            &mut audio_out,
            |chunk: &StereoChunk<f32>| {
                let (next, out) = denoiser.take().unwrap().process_stereo(chunk, smooth);
                denoiser = Some(next);
                out
            },
            false,
            FRAME_SIZE,
            &compute_rms,
            &mut meter,
        );
    }

    assert_eq!(audio_in.len(), 0, "every frame must be consumed");
    assert_eq!(audio_out.len(), FRAMES * FRAME_SIZE, "one frame out per frame in");
    assert_eq!(meter.count, (FRAMES * 2) as u32);
    assert!(
        (meter.mean_input(divide, 0.0) - 0.4).abs() < 1e-3,
        "input meter must read the true input level, got {}",
        meter.mean_input(divide, 0.0)
    );
    assert!(
        meter.mean_output(divide, 0.0) >= 0.0 && meter.mean_output(divide, 0.0).is_finite(),
        "output meter must stay a sane level, got {}",
        meter.mean_output(divide, 0.0)
    );
    assert!(meter.mean_output(divide, 0.0) < 0.4, "the first frames are still rising");
}

#[test]
fn process_chain_uses_the_denoiser_or_falls_back() {
    let frame: Vec<u32> = (0..FRAME_SIZE as u32).collect();
    let mut audio_in = AudioBuf::new();
    let mut audio_out = AudioBuf::new();
    let mut meter = RmsMeter::new(0u64);
    audio_in.extend(&frame);
    audio_in.extend(&frame);
    audio_in.extend(&frame[..10]);

    let outcome: FrameOutcome<u32, &str> = process_chain(
        &mut audio_in,
        &mut audio_out,
        |_: &StereoChunk<u32>| Ok(StereoChunk { left: [70; CHUNK], right: [800; CHUNK] }),
        false,
        FRAME_SIZE,
        &first,
        &mut meter,
    );
    assert!(matches!(outcome, FrameOutcome::Denoised { .. }));
    assert_eq!(&contents(&mut audio_out)[..4], &[70, 800, 70, 800]);
    assert_eq!((meter.input, meter.output, meter.count), (1, 870, 2));

    let outcome: FrameOutcome<u32, &str> = process_chain(
        &mut audio_in,
        &mut audio_out,
        |_: &StereoChunk<u32>| Err("broken"),
        false,
        FRAME_SIZE,
        &first,
        &mut meter,
    );
    match outcome {
        FrameOutcome::Failed { error, .. } => assert_eq!(error, "broken"),
        _ => panic!("the denoiser must fail"),
    }
    assert_eq!(contents(&mut audio_out), frame);
    assert_eq!((meter.input, meter.output, meter.count), (2, 871, 4), "both sides read the input");

    let outcome: FrameOutcome<u32, &str> = process_chain(
        &mut audio_in,
        &mut audio_out,
        |_: &StereoChunk<u32>| panic!("there is no frame to denoise"),
        false,
        FRAME_SIZE,
        &first,
        &mut meter,
    );
    assert!(matches!(outcome, FrameOutcome::Starved));
    assert_eq!(audio_in.len(), 10);
    assert_eq!(audio_out.len(), 0);
    assert_eq!((meter.input, meter.output, meter.count), (2, 871, 4));
}

#[test]
fn chains_open_empty_and_close_empty() {
    let mut chain: Chain<u32> = Chain::new();
    let mut meter = RmsMeter::new(0u64);
    chain.feed(&[1, 2]);
    assert_eq!(chain.input.len(), 0, "a closed chain takes no samples");
    chain.open();
    chain.feed(&[1, 2]);
    assert_eq!(chain.input.len(), 2);
    chain.open();
    assert_eq!(chain.input.len(), 0);
    chain.feed(&vec![9; FRAME_SIZE]);
    let turn = chain.turn(|_: &StereoChunk<u32>| Err(()), true, &first, &mut meter);
    assert_eq!(turn.dropped, 0);
    assert!(matches!(turn.outcome, FrameOutcome::Failed { .. }));
    assert_eq!(chain.output.len(), FRAME_SIZE);
    chain.close();
    assert!(!chain.active);
    assert_eq!(chain.output.len(), 0);
}

#[test]
fn samples_survive_the_way_through_bytes() {
    let samples = vec![0u32, 1, 0x1234_5678, u32::MAX, 1.5f32.to_bits()];
    let bytes = encode_samples(&samples);
    assert_eq!(&bytes[8..12], &[0x78, 0x56, 0x34, 0x12]);
    assert_eq!(decode_samples(&bytes), samples);
    assert_eq!(&bytes[16..20], &1.5f32.to_le_bytes());
    assert_eq!(decode_samples(&bytes[..7]), vec![0], "an incomplete sample is left out");
    assert_eq!(encode_samples(&decode_samples(&bytes)), bytes);
}

#[test]
fn streams_are_read_and_written_in_whole_samples() {
    assert!(!worth_peeking(3));
    assert!(worth_peeking(4));
    let mut buf = AudioBuf::new();
    assert!(pump_read(&Peek::Data(encode_samples(&[5, 6, 7])), &mut buf));
    assert!(pump_read(&Peek::Hole, &mut buf));
    assert!(!pump_read(&Peek::Nothing, &mut buf));
    assert_eq!(buf.len(), 3);
    assert_eq!(pump_write(11, &mut buf), encode_samples(&[5, 6]));
    assert_eq!(pump_write(3, &mut buf), Vec::<u8>::new());
    assert_eq!(pump_write(100, &mut buf), encode_samples(&[7]));
    assert_eq!(buf.len(), 0);
}
