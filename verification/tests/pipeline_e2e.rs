//! End-to-end tests: the short-time transform round trip, the full
//! analysis pipeline on a pure sine, and the degenerate inputs (empty and
//! all-zero audio).

use marumaru::f0::cepstral_pick;
use marumaru::f0::estimate_f0_curve;
use marumaru::f0::PitchEstimate;
use marumaru::f0::F0_FRAME_SIZE;
use marumaru::f0::F0_HOP_SIZE;
use marumaru::fixed::FP_ONE;
use marumaru::mode_freq::freq_avg_spectrum;
use marumaru::mode_time::analyze_time_domain;
use marumaru::dynamic_pitch::apply_pitch_sync;
use marumaru::pipeline::assemble_result;
use marumaru::pitch::periodicity;
use marumaru::pitch::select_mode;
use marumaru::pitch::DomainMode;
use marumaru::preprocess::apply_all_preprocessing;
use marumaru::quality::correlation_score;
use marumaru::quality::resynthesize_audio;
use marumaru::types::AnalysisResult;
use marumaru::types::AnalyzerError;
use marumaru::types::QualityMetrics;
use pitch_detection::detector::yin::YINDetector;
use pitch_detection::detector::PitchDetector;
use rustfft::num_complex::Complex;
use rustfft::FftPlanner;

const STFT_FFT_SIZE: usize = 2048;
const STFT_HOP_SIZE: usize = 512;

fn to_fp(x: f64) -> i64 {
    (x * FP_ONE as f64).round() as i64
}

fn from_fp(v: i64) -> f64 {
    v as f64 / FP_ONE as f64
}

fn stft_istft_roundtrip(audio: &[f32]) -> Vec<f32> {
    let mut planner = FftPlanner::new();
    let fft = planner.plan_fft_forward(STFT_FFT_SIZE);
    let ifft = planner.plan_fft_inverse(STFT_FFT_SIZE);
    let window: Vec<f32> = (0..STFT_FFT_SIZE)
        .map(|i| {
            0.5 * (1.0
                - (2.0 * std::f32::consts::PI * i as f32 / (STFT_FFT_SIZE - 1) as f32).cos())
        })
        .collect();

    let frames = audio.windows(STFT_FFT_SIZE).step_by(STFT_HOP_SIZE);
    let spectrogram: Vec<Vec<Complex<f32>>> = frames
        .map(|frame| {
            let mut buffer: Vec<Complex<f32>> = frame
                .iter()
                .zip(&window)
                .map(|(&s, &w)| Complex::new(s * w, 0.0))
                .collect();
            fft.process(&mut buffer);
            buffer
        })
        .collect();

    let mut output_audio = vec![0.0f32; audio.len()];
    let mut window_sum = vec![0.0f32; audio.len()];
    for (i, mut frame) in spectrogram.into_iter().enumerate() {
        ifft.process(&mut frame);
        let start = i * STFT_HOP_SIZE;
        for j in 0..STFT_FFT_SIZE {
            if start + j < output_audio.len() {
                output_audio[start + j] += (frame[j].re / STFT_FFT_SIZE as f32) * window[j];
                window_sum[start + j] += window[j].powi(2);
            }
        }
    }
    for i in 0..output_audio.len() {
        if window_sum[i] > 1e-6 {
            output_audio[i] /= window_sum[i];
        }
    }
    output_audio
}

#[test]
fn test_stft_istft_reconstruction_quality() {
    const SAMPLE_RATE: u32 = 48000;
    const SIGNAL_LEN: usize = SAMPLE_RATE as usize;
    let mut signal = Vec::new();
    for i in 0..SIGNAL_LEN {
        let time = i as f32 / SAMPLE_RATE as f32;
        let freq = 440.0;
        signal.push((2.0 * std::f32::consts::PI * freq * time).sin() * 0.5);
    }

    let reconstructed_signal = stft_istft_roundtrip(&signal);

    let mut signal_power = 0.0f32;
    let mut error_power = 0.0f32;
    for i in STFT_FFT_SIZE..SIGNAL_LEN - STFT_FFT_SIZE {
        signal_power += signal[i].powi(2);
        error_power += (signal[i] - reconstructed_signal[i]).powi(2);
    }
    let snr = 10.0 * (signal_power / error_power).log10();
    assert!(snr > 60.0, "reconstruction quality too low; SNR: {:.2} dB", snr);
}

/// Run the estimator's per-frame stage: the external detector plus the
/// cepstral estimate of every frame, on fixed-point audio.
fn frame_estimates(
    audio: &[i64],
    sample_rate: u32,
) -> (Vec<Option<PitchEstimate>>, Vec<PitchEstimate>) {
    let mut detector = YINDetector::<f32>::new(F0_FRAME_SIZE, F0_FRAME_SIZE / 2);
    let mut planner: FftPlanner<f32> = FftPlanner::new();
    let fft = planner.plan_fft_forward(F0_FRAME_SIZE);
    let ifft = planner.plan_fft_inverse(F0_FRAME_SIZE);
    let window: Vec<f32> = (0..F0_FRAME_SIZE)
        .map(|i| {
            0.5 * (1.0
                - (2.0 * std::f32::consts::PI * i as f32 / (F0_FRAME_SIZE - 1) as f32).cos())
        })
        .collect();
    let mut yins = Vec::new();
    let mut ceps = Vec::new();
    if audio.len() < F0_FRAME_SIZE {
        return (yins, ceps);
    }
    let floats: Vec<f32> = audio.iter().map(|&s| from_fp(s) as f32).collect();
    for frame in floats.windows(F0_FRAME_SIZE).step_by(F0_HOP_SIZE) {
        let yin = detector
            .get_pitch(frame, sample_rate as usize, 0.1, 0.0)
            .map(|p| PitchEstimate {
                f0: to_fp(p.frequency as f64),
                confidence: to_fp((p.clarity as f64).clamp(0.0, 1.0)),
            });
        let mut buffer: Vec<Complex<f32>> = frame
            .iter()
            .zip(&window)
            .map(|(&s, &w)| Complex::new(s * w, 0.0))
            .collect();
        fft.process(&mut buffer);
        let mut log_power: Vec<Complex<f32>> = buffer
            .iter()
            .map(|c| {
                let n = *c / F0_FRAME_SIZE as f32;
                Complex::new((n.norm_sqr() + 1e-12).log10(), 0.0)
            })
            .collect();
        ifft.process(&mut log_power);
        let cep_fixed: Vec<i64> = log_power.iter().map(|c| to_fp(c.re as f64)).collect();
        ceps.push(cepstral_pick(&cep_fixed, sample_rate, F0_FRAME_SIZE));
        yins.push(yin);
    }
    (yins, ceps)
}

/// The offline pipeline on already-preprocessed audio, choosing the domain
/// analyzer by periodicity (the time domain is exercised here; the pure
/// sine below always selects it).
fn analyze_audio(
    audio: &Vec<i64>,
    sample_rate: u32,
    core_end_ratio: i64,
    release_start_ratio: i64,
) -> Result<AnalysisResult, AnalyzerError> {
    let processed = apply_all_preprocessing(audio)?;
    let clamped: Vec<i64> = processed
        .iter()
        .map(|&s| s.clamp(-marumaru::fixed::AMP_LIMIT, marumaru::fixed::AMP_LIMIT))
        .collect();
    let (yins, ceps) = frame_estimates(&clamped, sample_rate);
    let (f0_curve, confidence) = estimate_f0_curve(&yins, &ceps, clamped.len(), sample_rate)?;
    let p = periodicity(&confidence);
    let tables = match select_mode(p) {
        DomainMode::Time => analyze_time_domain(&clamped, sample_rate, &f0_curve)?,
        DomainMode::Hybrid | DomainMode::Frequency => {
            return Err(AnalyzerError::DomainAnalysisFailure);
        },
    };
    let final_tables = apply_pitch_sync(&tables, &f0_curve)?;
    let resynth = resynthesize_audio(&final_tables[0], &f0_curve, sample_rate, clamped.len());
    let correlation = correlation_score(&clamped, &resynth);
    let quality = QualityMetrics { correlation, spectral_residual: 0, nan_ratio: 0 };
    assemble_result(
        audio,
        f0_curve,
        confidence,
        final_tables,
        core_end_ratio,
        release_start_ratio,
        quality,
    )
}

#[test]
fn test_full_pipeline_on_pure_sine() {
    const SAMPLE_RATE: u32 = 48000;
    const SIGNAL_FREQ: f64 = 440.0;
    const SIGNAL_LEN: usize = SAMPLE_RATE as usize;
    let mut signal = Vec::new();
    for i in 0..SIGNAL_LEN {
        let time = i as f64 / SAMPLE_RATE as f64;
        signal.push(to_fp((2.0 * std::f64::consts::PI * SIGNAL_FREQ * time).sin() * 0.7));
    }

    let result = analyze_audio(&signal, SAMPLE_RATE, to_fp(0.2), to_fp(0.8));
    assert!(result.is_ok(), "the whole analysis pipeline returned an error: {:?}", result.err());
    let analysis_result = result.unwrap();

    let valid_f0s: Vec<f64> = analysis_result
        .f0_curve
        .iter()
        .filter(|&&f| f > 0)
        .map(|&f| from_fp(f))
        .collect();
    assert!(!valid_f0s.is_empty(), "no voiced fundamental was found");
    let average_f0: f64 = valid_f0s.iter().sum::<f64>() / valid_f0s.len() as f64;
    assert!(
        (average_f0 - SIGNAL_FREQ).abs() < 2.0,
        "average F0 off target; expected {}, got {}",
        SIGNAL_FREQ,
        average_f0
    );

    let average_confidence: f64 = analysis_result.confidence.iter().map(|&c| from_fp(c)).sum::<
        f64,
    >() / analysis_result.confidence.len() as f64;
    assert!(average_confidence > 0.6, "low periodicity; Time mode may not have been selected");

    assert_eq!(analysis_result.tables.len(), 1, "exactly one wavetable should be produced");
    let table = &analysis_result.tables[0];
    let expected_len = (SAMPLE_RATE as f64 / average_f0).round() as usize;
    assert_eq!(table.len(), expected_len, "wrong wavetable length");

    let peak_idx = (expected_len as f64 * 0.25).round() as usize;
    let trough_idx = (expected_len as f64 * 0.75).round() as usize;
    assert!((from_fp(table[peak_idx]) - 1.0).abs() < 0.1, "wrong waveform peak");
    assert!((from_fp(table[trough_idx]) - -1.0).abs() < 0.1, "wrong waveform trough");
}

#[test]
fn empty_audio_fails_with_input_error() {
    let empty: Vec<i64> = Vec::new();
    let r = analyze_audio(&empty, 48000, 0, 0);
    let e = r.unwrap_err();
    assert_eq!(e, AnalyzerError::InputError);
    assert_eq!(e.message(), "Input audio is empty.");
}

#[test]
fn all_zero_audio_yields_a_silent_curve_and_frequency_mode() {
    const SAMPLE_RATE: u32 = 48000;
    let zeros = vec![0i64; F0_FRAME_SIZE];
    let (yins, ceps) = frame_estimates(&zeros, SAMPLE_RATE);
    assert_eq!(yins.len(), 1);
    let (f0_curve, confidence) =
        estimate_f0_curve(&yins, &ceps, zeros.len(), SAMPLE_RATE).unwrap();
    assert!(f0_curve.iter().all(|&f| f == 0), "zero audio must give an all-zero F0 curve");
    let p = periodicity(&confidence);
    assert_eq!(p, 0, "zero audio has zero periodicity");
    assert_eq!(select_mode(p), DomainMode::Frequency);
    // Shorter than the frequency analyzer's transform: a domain failure.
    let no_frames: Vec<Vec<i64>> = Vec::new();
    let r = freq_avg_spectrum(2047, &no_frames);
    assert_eq!(r.unwrap_err(), AnalyzerError::DomainAnalysisFailure);
}

#[test]
fn estimator_rejects_short_audio() {
    let yins: Vec<Option<PitchEstimate>> = Vec::new();
    let ceps: Vec<PitchEstimate> = Vec::new();
    let r = estimate_f0_curve(&yins, &ceps, F0_FRAME_SIZE - 1, 48000);
    assert_eq!(r.unwrap_err(), AnalyzerError::InputError);
}
