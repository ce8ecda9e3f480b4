use realfft::num_complex::Complex as C32;
use realfft::RealFftPlanner;
use std::cell::RefCell;
use upalla::config::{
    DF_BINS, DF_LOOKAHEAD, DF_LOOKAHEAD_SAMPLES, DF_ORDER, ERB_BANDS, FFT_SIZE, FREQ_BINS, HOP_SIZE,
    SAMPLE_RATE, STFT_LATENCY_SAMPLES, TOTAL_LATENCY_SAMPLES, WORKER_LATENCY_SAMPLES,
};
use upalla::dsp::{
    apply_deep_filter, apply_erb_mask, df_fn, erb_mask_to_gain, mix_noisy, DF_PAD_BEFORE,
};
use upalla::features::{extract_erb_features, extract_spec_features, FeatureState};
use upalla::filterbank::Auxiliary;
use upalla::network::{
    arrange_taps, choose_stages, feature_parts, process_raw, Complex, DfDecoded, Encoded, ErbDecoded,
    GruStates, LsnrLevel, RawSizes, GRU_H_SIZE, QUIET_FRAMES,
};
use upalla::rolling::{NetworkState, Processed, Rolling, Verdict};
use upalla::settings::{
    load_config, read_alpha, read_config, read_lookahead, read_sizes, AlphaSource, ConfigError, Item,
    RawConfig,
};
use upalla::stft::StftEngine;

fn hz_to_erb(f: f32) -> f32 {
    9.265 * (1.0 + f / 228.8).ln()
}

fn erb_to_hz(e: f32) -> f32 {
    228.8 * ((e / 9.265).exp() - 1.0)
}

fn auxiliary() -> Auxiliary<f32> {
    let sr = SAMPLE_RATE as f32;
    let erb_min = hz_to_erb(20.0);
    let erb_max = hz_to_erb(sr / 2.0);
    Auxiliary::new(
        |i: usize| erb_to_hz(erb_min + (erb_max - erb_min) * i as f32 / (ERB_BANDS + 1) as f32),
        |i: usize| sr / 2.0 * i as f32 / (FREQ_BINS - 1) as f32,
        |i: usize| {
            let s = (std::f32::consts::PI * i as f32 / FFT_SIZE as f32).sin();
            (std::f32::consts::PI / 2.0 * s * s).sin()
        },
        |lower: f32, center: f32, upper: f32, f: f32| {
            if f > lower && f <= center {
                (f - lower) / (center - lower)
            } else if f > center && f < upper {
                (upper - f) / (upper - center)
            } else {
                0.0
            }
        },
        |x: f32| x > 0.0,
        |x: f32| 1.0 / x,
        0.0,
    )
}

/// The buffers together with the transform that is run between them.
struct Stft {
    engine: StftEngine<f32>,
}

impl Stft {
    fn new(window: Vec<f32>) -> Self {
        Stft { engine: StftEngine::new(window, 0.0) }
    }

    fn forward(&mut self, samples: &[f32]) -> Vec<C32<f32>> {
        let fft = RealFftPlanner::<f32>::new().plan_fft_forward(FFT_SIZE);
        let mut frame = self.engine.forward(samples);
        let mut out = fft.make_output_vec();
        fft.process(&mut frame, &mut out).expect("FFT forward failed");
        let scale = 1.0 / (FFT_SIZE as f32).sqrt();
        out.iter().map(|c| c * scale).collect()
    }

    fn inverse(&mut self, spectrum: &[C32<f32>]) -> Vec<f32> {
        let ifft = RealFftPlanner::<f32>::new().plan_fft_inverse(FFT_SIZE);
        let mut input = spectrum.to_vec();
        input[0].im = 0.0;
        input[FREQ_BINS - 1].im = 0.0;
        let mut frame = ifft.make_output_vec();
        ifft.process(&mut input, &mut frame).expect("FFT inverse failed");
        let scale = 1.0 / (FFT_SIZE as f32).sqrt();
        for s in frame.iter_mut() {
            *s *= scale;
        }
        self.engine.inverse(&frame, 0.0)
    }
}

#[test]
fn test_roundtrip_silence() {
    let aux = auxiliary();
    let mut engine = Stft::new(aux.window);

    let input = vec![0.0f32; HOP_SIZE];
    let spectrum = engine.forward(&input);
    let output = engine.inverse(&spectrum);

    for &s in &output {
        assert!(s.abs() < 1e-4, "silence roundtrip error: {s}");
    }
}

#[test]
fn test_roundtrip_impulse() {
    let aux = auxiliary();
    let mut engine = Stft::new(aux.window);

    let mut found_impulse = false;
    for frame in 0..12 {
        let mut input = vec![0.0f32; HOP_SIZE];
        if frame == 3 {
            input[HOP_SIZE / 2] = 1.0;
        }

        let spectrum = engine.forward(&input);
        let output = engine.inverse(&spectrum);

        if frame >= 4 && frame <= 5 {
            if output.iter().any(|&s| s.abs() > 0.1) {
                found_impulse = true;
            }
        }
    }
    assert!(found_impulse, "impulse reconstruction failed");
}

#[test]
fn audio_comes_back_one_hop_later() {
    let mut engine = Stft::new(auxiliary().window);
    let signal: Vec<f32> = (0..6 * HOP_SIZE).map(|i| (i as f32 * 0.05).sin() * 0.5).collect();
    let mut out = Vec::new();
    for hop in signal.chunks(HOP_SIZE) {
        let spectrum = engine.forward(hop);
        out.extend(engine.inverse(&spectrum));
    }
    for i in 0..5 * HOP_SIZE {
        assert!((out[i + HOP_SIZE] - signal[i]).abs() < 1e-3, "sample {i}");
    }
}

#[test]
fn overlapping_windows_add_up() {
    let mut engine = StftEngine::new(vec![2i64; FFT_SIZE], 0);
    let hop: Vec<i64> = (0..HOP_SIZE as i64).collect();
    let frame = engine.forward(&hop);
    assert_eq!(frame[0], 0);
    assert_eq!(frame[HOP_SIZE + 3], 6);
    let frame = engine.forward(&hop);
    assert_eq!(frame[3], 6, "the first hop has moved to the older half");
    let ones = vec![1i64; FFT_SIZE];
    assert_eq!(engine.inverse(&ones, 0), vec![2; HOP_SIZE]);
    assert_eq!(engine.inverse(&ones, 0), vec![4; HOP_SIZE]);
    engine.reset(0);
    assert_eq!(engine.inverse(&ones, 0), vec![2; HOP_SIZE]);
    assert_eq!(engine.forward(&hop)[3], 0);
}

#[test]
fn test_erb_fb_shape() {
    let aux = auxiliary();
    assert_eq!(aux.erb_fb.len(), 481 * 32);
    assert_eq!(aux.erb_inv_fb.len(), 32 * 481);
    assert_eq!(aux.window.len(), 960);
}

#[test]
fn test_vorbis_window_range() {
    let aux = auxiliary();
    let n = aux.window.len();
    assert!(aux.window[0] < 0.01, "window should start near 0");
    assert!(aux.window[n / 2] > 0.9, "window should peak near 1");
    assert!(aux.window[n - 1] < 0.01, "window should end near 0");
}

#[test]
fn test_erb_fb_normalized() {
    let aux = auxiliary();
    for b in 0..32 {
        let sum: f32 = (0..481).map(|f| aux.erb_fb[f * 32 + b]).sum();
        assert!((sum - 1.0).abs() < 0.15, "band {b} sum = {sum}");
    }
}

#[test]
fn the_inverse_bank_is_the_transposed_one() {
    let aux = auxiliary();
    for b in 0..ERB_BANDS {
        for f in 0..FREQ_BINS {
            let w = aux.erb_fb[f * ERB_BANDS + b];
            let v = aux.erb_inv_fb[b * FREQ_BINS + f];
            assert!((w - v).abs() < 1e-4, "bin {f}, band {b}: {w} and {v}");
        }
    }
}

#[test]
fn sizes_follow_from_the_transform() {
    assert_eq!(FREQ_BINS, 481);
    assert_eq!(STFT_LATENCY_SAMPLES, HOP_SIZE);
    assert_eq!(DF_LOOKAHEAD_SAMPLES, DF_ORDER * HOP_SIZE);
    assert_eq!(
        TOTAL_LATENCY_SAMPLES,
        STFT_LATENCY_SAMPLES + DF_LOOKAHEAD_SAMPLES + WORKER_LATENCY_SAMPLES
    );
    assert_eq!(DF_PAD_BEFORE, DF_ORDER - 1 - DF_LOOKAHEAD);
}

#[test]
fn features_are_relative_to_recent_means() {
    let mut state = FeatureState::new(0i64);
    let mut fb = vec![0i64; FREQ_BINS * ERB_BANDS];
    fb[2 * ERB_BANDS + 1] = 3;
    let mut reals = vec![0i64; FREQ_BINS];
    let mut imags = vec![0i64; FREQ_BINS];
    reals[2] = 4;
    imags[2] = 3;
    let features = extract_erb_features(
        &reals,
        &imags,
        &fb,
        &mut state,
        0,
        |p: i64| p + 1,
        |ma: i64, x: i64| ma + 2 * x,
        |x: i64, ma: i64| x - ma,
    );
    assert_eq!(features.len(), ERB_BANDS);
    assert_eq!(state.erb_ma[1], 2 * 76, "(4 * 4 + 3 * 3) * 3, and one more");
    assert_eq!(features[1], 76 - 152);
    assert_eq!((state.erb_ma[0], features[0]), (2, -1));

    let features = extract_spec_features(
        &reals,
        &imags,
        &mut state,
        |re: i64, im: i64| re + im,
        |ma: i64, m: i64| ma + m,
        |ma: i64| ma * 10,
    );
    assert_eq!(features.len(), 2 * DF_BINS);
    assert_eq!((features[2], features[DF_BINS + 2]), (4 * 70, 3 * 70));
    assert_eq!(features[0], 0);
    state.reset(0);
    assert!(state.erb_ma.iter().chain(state.spec_ma.iter()).all(|&x| x == 0));
}

#[test]
fn gains_weigh_every_bin() {
    let mut mask = vec![0i64; 2 * ERB_BANDS];
    let mut inv = vec![0i64; ERB_BANDS * FREQ_BINS];
    mask[ERB_BANDS] = 2;
    mask[ERB_BANDS + 1] = 5;
    inv[7] = 10;
    inv[FREQ_BINS + 7] = 100;
    let gains = erb_mask_to_gain(&mask, &inv, 1, 0);
    assert_eq!(gains.len(), FREQ_BINS);
    assert_eq!(gains[7], 520);
    assert_eq!(gains[8], 0);
    let mut reals = vec![1i64; FREQ_BINS];
    let mut imags = vec![2i64; FREQ_BINS];
    apply_erb_mask(&mut reals, &mut imags, &mask, &inv, 1, 0);
    assert_eq!((reals[7], imags[7], reals[8], imags[8]), (520, 1040, 0, 0));
}

#[test]
fn the_deep_filter_sums_neighbouring_frames() {
    let frames = 3;
    let reals: Vec<Vec<i64>> = (0..frames).map(|t| vec![t as i64 + 1; FREQ_BINS]).collect();
    let imags: Vec<Vec<i64>> = (0..frames).map(|t| vec![10 * (t as i64 + 1); FREQ_BINS]).collect();
    let mut coefs = vec![0i64; DF_ORDER * frames * DF_BINS * 2];
    let at = |n: usize, t: usize, f: usize| ((n * frames + t) * DF_BINS + f) * 2;
    for n in 0..DF_ORDER {
        coefs[at(n, 1, 4)] = 1;
    }
    coefs[at(DF_PAD_BEFORE, 1, 5)] = 2;
    coefs[at(DF_PAD_BEFORE, 1, 5) + 1] = 3;
    let mut out_re = vec![0i64; FREQ_BINS];
    let mut out_im = vec![0i64; FREQ_BINS];
    apply_deep_filter(&reals, &imags, &coefs, frames, 1, 0, &mut out_re, &mut out_im);
    assert_eq!((out_re[4], out_im[4]), (1 + 2 + 3, 10 + 20 + 30), "taps outside the frames add nothing");
    assert_eq!((out_re[5], out_im[5]), (2 * 2 - 20 * 3, 2 * 3 + 20 * 2));
    assert_eq!((out_re[0], out_im[0]), (0, 0));
    assert_eq!((out_re[DF_BINS], out_im[DF_BINS]), (2, 20), "higher bins come from the frame itself");
}

#[test]
fn taps_are_summed_bin_by_bin() {
    let spectra = vec![vec![1i64, 2, 9], vec![3, 4, 9]];
    let coefs = vec![vec![10i64, 100], vec![1000, 10000]];
    let mut out = vec![7i64, 7, 7];
    df_fn(&spectra, &coefs, 2, 2, 0, &mut out);
    assert_eq!(out, vec![1 * 10 + 3 * 1000, 2 * 100 + 4 * 10000, 7]);
    let mut enhanced = vec![1i64, 2, 3];
    mix_noisy(&mut enhanced, &vec![10i64, 20], 2, 3);
    assert_eq!(enhanced, vec![32, 64, 3]);
}

#[test]
fn noise_levels_decide_on_stages() {
    let level = |below_min, above_erb, above_df| LsnrLevel { below_min, above_erb, above_df };
    let s = choose_stages(level(true, true, true));
    assert_eq!((s.gains, s.gain_zeros, s.df), (false, true, false));
    let s = choose_stages(level(false, true, true));
    assert_eq!((s.gains, s.gain_zeros, s.df), (false, false, false));
    let s = choose_stages(level(false, false, true));
    assert_eq!((s.gains, s.gain_zeros, s.df), (true, false, false));
    let s = choose_stages(level(false, false, false));
    assert_eq!((s.gains, s.gain_zeros, s.df), (true, false, true));
}

#[test]
fn coefficients_are_arranged_by_tap() {
    let data: Vec<i32> = (0..8).collect();
    let taps = arrange_taps(&data, 2, 4, -1, 3, 3);
    assert_eq!(taps.len(), 3);
    assert_eq!((taps[0][1].re, taps[0][1].im), (4, 5));
    assert_eq!((taps[1][0].re, taps[1][0].im), (2, 3));
    assert_eq!((taps[1][2].re, taps[2][0].im), (-1, -1), "what was not given is zero");
    let bins = vec![Complex { re: 1, im: 2 }, Complex { re: 3, im: 4 }];
    assert_eq!(feature_parts(&bins), vec![1, 3, 2, 4]);
}

fn hidden(x: i32) -> Vec<i32> {
    vec![x; GRU_H_SIZE]
}

#[test]
fn layers_remember_their_last_run() {
    let sizes = RawSizes { nb_erb: 2, nb_df: 1, df_order: 1 };
    let run = |states: &mut GruStates<i32>, below_min, above_erb, above_df, fail_df: bool| {
        process_raw(
            states,
            |h: &Vec<i32>| -> Result<Encoded<i32, i32>, &'static str> {
                Ok(Encoded {
                    lsnr: 5,
                    level: LsnrLevel { below_min, above_erb, above_df },
                    hidden: hidden(h[0] + 1),
                    outputs: 9,
                })
            },
            |v: &i32, a: &Vec<i32>, b: &Vec<i32>| {
                Ok(ErbDecoded { gains: vec![*v, a[0]], hidden: hidden(a[0] + 10), hidden2: hidden(b[0] + 20) })
            },
            |v: &i32, a: &Vec<i32>, b: &Vec<i32>, c: &Vec<i32>| {
                if fail_df {
                    return Err("df");
                }
                Ok(DfDecoded {
                    coefs: vec![*v, 2],
                    bins: 1,
                    width: 2,
                    hidden: hidden(a[0] + 30),
                    hidden2: hidden(b[0] + 40),
                    hidden3: hidden(c[0] + 50),
                })
            },
            0,
            sizes,
        )
    };
    let mut states = GruStates::new(0);
    let out = run(&mut states, false, false, false, false).expect("runs");
    assert_eq!(out.lsnr, 5);
    assert_eq!(out.gains, Some(vec![9, 0]));
    let coefs = out.coefs.expect("filter applies");
    assert_eq!((coefs[0][0].re, coefs[0][0].im), (9, 2));
    assert_eq!((states.enc[0], states.erb[0], states.erb2[0]), (1, 10, 20));
    assert_eq!((states.df[0], states.df2[0], states.df3[0]), (30, 40, 50));

    let out = run(&mut states, true, false, false, false).expect("runs");
    assert_eq!(out.gains, Some(vec![0, 0]), "all noise is muted");
    assert!(out.coefs.is_none());
    assert_eq!((states.enc[0], states.erb[0], states.df[0]), (2, 10, 30), "decoders were not asked");

    let out = run(&mut states, false, true, false, false).expect("runs");
    assert!(out.gains.is_none() && out.coefs.is_none());

    assert_eq!(run(&mut states, false, false, false, true).err(), Some("df"));
    assert_eq!((states.enc[0], states.erb[0], states.df[0]), (4, 20, 30));
}

#[test]
fn buffers_forget_what_is_old() {
    let mut buf = Rolling::new(2, 1, 3, 0);
    assert_eq!(buf.len(), 2);
    buf.push(vec![vec![1, 1, 1]]);
    buf.push(vec![vec![2, 2, 2]]);
    buf.push(vec![vec![3, 3, 3]]);
    assert_eq!(buf.at(0)[0], vec![2, 2, 2]);
    assert_eq!(buf.at(1)[0], vec![3, 3, 3]);
    buf.clear(0);
    assert_eq!(buf.at(1)[0], vec![0, 0, 0]);
}

type Mask = fn(&Vec<i64>) -> Vec<i64>;

fn doubled(row: &Vec<i64>) -> Vec<i64> {
    row.iter().map(|x| x * 2).collect()
}

fn verdict(mask: bool, coefs: Option<Vec<Vec<i64>>>) -> Result<Verdict<i64, Mask, i64>, &'static str> {
    let mask: Option<Mask> = if mask { Some(doubled) } else { None };
    Ok(Verdict { lsnr: 1, mask, coefs })
}

#[test]
fn quiet_frames_are_left_out_after_a_while() {
    let mut state = NetworkState::new(2, 0, 0, 1, 2, 0i64);
    for _ in 0..QUIET_FRAMES {
        assert!(!state.begin(true));
    }
    let asked = RefCell::new(false);
    let out = state.process(
        true,
        || {
            *asked.borrow_mut() = true;
            vec![vec![1, 1]]
        },
        false,
        |_: &Vec<Vec<i64>>| verdict(true, None),
        1,
        1,
        None::<(i64, i64)>,
        0,
    );
    assert!(matches!(out, Ok(Processed::Silent)));
    assert!(!*asked.borrow());
    assert_eq!(state.skip_counter, QUIET_FRAMES + 1);
}

#[test]
fn a_frame_goes_through_the_network() {
    // Two taps, gains one frame back, delivery one frame back.
    let mut state = NetworkState::new(2, 1, 1, 1, 3, 0i64);
    let mut step = |k: i64, v: Result<Verdict<i64, Mask, i64>, &'static str>, untouched: bool, limit: Option<(i64, i64)>| {
        state.process(
            false,
            || vec![vec![k, k, k]],
            untouched,
            |s: &Vec<Vec<i64>>| {
                assert_eq!(s[0][0], k);
                v
            },
            1,
            1,
            limit,
            0,
        )
    };
    assert!(matches!(step(1, verdict(true, None), true, None), Ok(Processed::Untouched)));
    match step(2, verdict(true, None), false, None) {
        Ok(Processed::Enhanced { lsnr, spectrum }) => {
            assert_eq!(lsnr, 1);
            assert_eq!(spectrum, vec![vec![2, 2, 2]], "the frame before, doubled");
        }
        _ => panic!("must be enhanced"),
    }
    match step(3, verdict(false, Some(vec![vec![10], vec![100]])), false, None) {
        Ok(Processed::Enhanced { spectrum, .. }) => {
            assert_eq!(spectrum, vec![vec![2 * 10 + 3 * 100, 2, 2]]);
        }
        _ => panic!("must be enhanced"),
    }
    match step(4, verdict(true, None), false, Some((3, 5))) {
        Ok(Processed::Enhanced { spectrum, .. }) => {
            assert_eq!(spectrum, vec![vec![6 * 3 + 3 * 5; 3]], "mixed with the noisy frame before");
        }
        _ => panic!("must be enhanced"),
    }
    assert!(matches!(step(5, Err("broken"), false, None), Err("broken")));
    assert_eq!(state.skip_counter, 0);
    assert_eq!(state.delivered_noisy(), &vec![vec![4, 4, 4]]);
    state.init(0);
    assert_eq!(state.to_enhance(), vec![vec![0, 0, 0]]);
    assert_eq!(state.filter_input(), vec![vec![0, 0, 0], vec![0, 0, 0]]);
}

#[test]
fn unmasked_frames_count_as_quiet() {
    let mut state = NetworkState::new(1, 0, 0, 1, 1, 0i64);
    for k in 0..3 {
        let out = state.process(
            true,
            || vec![vec![k]],
            false,
            |_: &Vec<Vec<i64>>| verdict(false, None),
            1,
            1,
            None::<(i64, i64)>,
            0,
        );
        assert!(out.is_ok());
    }
    assert_eq!(state.skip_counter, 6, "each quiet frame that was left alone counts twice");
    state.gains_applied(true);
    assert_eq!(state.skip_counter, 0);
    state.accept(vec![vec![8]]);
    assert_eq!(state.to_enhance(), vec![vec![8]]);
    assert_eq!(state.enhance(Some(doubled), &None, 1, 1, 0), vec![vec![16]]);
}

const CONFIG: &str = "[df]\nsr = 48000\nfft_size = 960\nhop_size = 480\nnb_erb = 32\nnb_df = 96\nmin_nb_erb_freqs = 2\ndf_order = 5\nnorm_tau = 1\n[deepfilternet]\nconv_lookahead = 2\ndf_lookahead = 3\ndf_order = 7\n[train]\nmodel = deepfilternet3\n";

#[test]
fn sizes_are_read_from_the_configuration() {
    let raw = read_config(CONFIG).expect("an INI file");
    let sizes = read_sizes(&raw).expect("all numbers are there");
    assert_eq!((sizes.sr, sizes.hop_size, sizes.fft_size, sizes.n_freqs), (48000, 480, 960, 481));
    assert_eq!((sizes.nb_erb, sizes.nb_df, sizes.min_nb_erb_freqs), (32, 96, 2));
    assert_eq!(sizes.df_order, 5, "the first section wins");
    assert_eq!((sizes.conv_lookahead, sizes.df_lookahead), (2, 3), "the second section fills in");
    assert_eq!(read_lookahead(&raw, &sizes), Ok(3));
    assert!(matches!(read_alpha(&raw), Ok(AlphaSource::Tau(t)) if t == "1"));
    let parsed = load_config(CONFIG).expect("an INI file");
    assert_eq!(RawConfig::read(&parsed).nb_df.as_deref(), Some("96"));
}

#[test]
fn faulty_configurations_are_refused() {
    assert!(matches!(read_config("[df\nsr"), Err(ConfigError::Syntax)));
    let fault = |text: &str| read_sizes(&read_config(text).expect("an INI file")).err();
    assert_eq!(fault("[df]\nsr=1\n"), Some(ConfigError::Missing(Item::ModelSection)));
    assert_eq!(fault("[deepfilternet]\nx=1\n"), Some(ConfigError::Missing(Item::DfSection)));
    assert_eq!(fault(&CONFIG.replace("sr = 48000", "sr = 48k")), Some(ConfigError::NotANumber(Item::SampleRate)));
    assert_eq!(fault(&CONFIG.replace("hop_size = 480\n", "")), Some(ConfigError::Missing(Item::HopSize)));
    assert_eq!(fault(&CONFIG.replace("fft_size = 960", "fft_size = -1")), Some(ConfigError::NotANumber(Item::FftSize)));
    assert_eq!(fault(&CONFIG.replace("min_nb_erb_freqs = 2", "min_nb_erb_freqs = x")), Some(ConfigError::NotANumber(Item::MinNbErbFreqs)));
    assert_eq!(fault(&CONFIG.replace("nb_erb = 32\n", "")), Some(ConfigError::Missing(Item::NbErb)));
    assert_eq!(fault(&CONFIG.replace("nb_df = 96\n", "")), Some(ConfigError::Missing(Item::NbDf)));
    assert_eq!(fault(&CONFIG.replace("df_order = 5\n", "").replace("df_order = 7\n", "")), Some(ConfigError::Missing(Item::DfOrder)));
    assert_eq!(fault(&CONFIG.replace("conv_lookahead = 2\n", "")), Some(ConfigError::Missing(Item::ConvLookahead)));
    assert_eq!(fault(&CONFIG.replace("df_lookahead = 3\n", "")), Some(ConfigError::Missing(Item::DfLookahead)));

    let raw = read_config(&CONFIG.replace("norm_tau = 1\n", "")).expect("an INI file");
    assert!(matches!(read_alpha(&raw), Err(ConfigError::Missing(Item::NormTau))));
    let raw = read_config(&CONFIG.replace("norm_tau = 1\n", "norm_alpha = 0.99\n")).expect("an INI file");
    assert!(matches!(read_alpha(&raw), Ok(AlphaSource::Alpha(a)) if a == "0.99"));
    let sizes = read_sizes(&raw).expect("all numbers are there");
    let lookahead = |text: &str| read_lookahead(&read_config(text).expect("an INI file"), &sizes);
    assert_eq!(lookahead(&CONFIG.replace("[train]\n", "")), Err(ConfigError::Missing(Item::TrainSection)));
    assert_eq!(lookahead(&CONFIG.replace("model = deepfilternet3", "m = 1")), Err(ConfigError::Missing(Item::ModelType)));
    assert_eq!(lookahead(&CONFIG.replace("deepfilternet3", "deepfilternet2")), Err(ConfigError::UnsupportedModel));
}

/// Every hop comes back one hop later.
#[test]
fn synthesis_undoes_analysis_one_hop_later() {
    let mut engine = Stft::new(auxiliary().window);
    let hop = |k: i32| -> Vec<f32> {
        (0..HOP_SIZE as i32).map(|i| ((i * 37 + k * 101) % 200) as f32 / 100.0 - 1.0).collect()
    };
    for k in 0..6 {
        let spectrum = engine.forward(&hop(k));
        let output = engine.inverse(&spectrum);
        let expected = if k == 0 { vec![0.0; HOP_SIZE] } else { hop(k - 1) };
        for (y, x) in output.iter().zip(&expected) {
            assert!((y - x).abs() < 1e-3, "{y} is not {x}");
        }
    }

    let window: Vec<i64> = (0..FFT_SIZE).map(|i| ((i % 3 == 0) == (i < HOP_SIZE)) as i64).collect();
    assert!((0..HOP_SIZE).all(|i| window[i] + window[i + HOP_SIZE] == 1));
    let mut engine = StftEngine::new(window, 0);
    let hop = |k: i64| -> Vec<i64> { (0..HOP_SIZE as i64).map(|i| i * i - 1000 * k).collect() };
    for k in 0..4 {
        let frame = engine.forward(&hop(k));
        let expected = if k == 0 { vec![0; HOP_SIZE] } else { hop(k - 1) };
        assert_eq!(engine.inverse(&frame, 0), expected, "exactly, where sums and products are exact");
    }
}

#[test]
fn a_window_is_read_as_far_as_one_transform() {
    let mut window = vec![2i64; FFT_SIZE];
    window.push(100);
    let mut engine = StftEngine::new(window, 0);
    let frame = engine.forward(&vec![3; HOP_SIZE]);
    assert_eq!((frame.len(), frame[FFT_SIZE - 1]), (FFT_SIZE, 6));
    assert_eq!(engine.inverse(&vec![1; FFT_SIZE], 0), vec![2; HOP_SIZE]);
}
