//! Frame geometry of the noise suppressor.
use vstd::prelude::*;

verus! {

/// Sample rate, in Hz, of every stream.
pub const SAMPLE_RATE: usize = 48000;

/// Samples in one analysis window.
pub const FFT_SIZE: usize = 960;

/// Samples by which consecutive analysis windows are apart.
pub const HOP_SIZE: usize = 480;

/// Frequency bins of one spectrum.
pub const FREQ_BINS: usize = FFT_SIZE / 2 + 1;

/// Bands of the ERB (equivalent rectangular bandwidth) scale.
pub const ERB_BANDS: usize = 32;

/// Lowest bins, the ones the deep filter works on.
pub const DF_BINS: usize = 96;

/// Taps of the deep filter.
pub const DF_ORDER: usize = 5;

/// Frames by which the deep filter looks ahead.
pub const DF_LOOKAHEAD: usize = 2;

/// Least number of bins in one ERB band.
pub const NB_ERB_FREQS: usize = 2;

/// Samples per channel in one processed frame.
pub const FRAME_SAMPLES: usize = HOP_SIZE;

/// Delay, in samples, of the overlap-add analysis.
pub const STFT_LATENCY_SAMPLES: usize = HOP_SIZE;

/// Delay, in samples, of the frames that the deep filter holds back.
pub const DF_LOOKAHEAD_SAMPLES: usize = DF_ORDER * HOP_SIZE;

/// Delay, in samples, of handing frames to a worker thread.
pub const WORKER_LATENCY_SAMPLES: usize = HOP_SIZE;

/// Delay, in samples, from an input sample to the output sample it yields.
pub const TOTAL_LATENCY_SAMPLES: usize = STFT_LATENCY_SAMPLES + DF_LOOKAHEAD_SAMPLES
    + WORKER_LATENCY_SAMPLES;

/// How the sizes belong together: a hop is ten milliseconds, a transform spans two hops, a spectrum has a bin
/// for each half period and one for none, the deep filter works within it, and audio comes out after one hop
/// for the transform, one for each frame of the filter, and one for the worker.
pub proof fn lemma_sizes_belong_together()
    ensures
        100 * HOP_SIZE == SAMPLE_RATE == 48000,
        FFT_SIZE == 2 * HOP_SIZE,
        2 * (FREQ_BINS - 1) == FFT_SIZE,
        ERB_BANDS < DF_BINS < FREQ_BINS,
        DF_LOOKAHEAD < DF_ORDER,
        FRAME_SAMPLES == HOP_SIZE,
        TOTAL_LATENCY_SAMPLES == (DF_ORDER + 2) * HOP_SIZE,
{
}

} // verus!
