//! Tests of the analysis stages: preprocessing, mode selection, the domain
//! analyzers, pitch sync, segmentation, the estimator and the quality
//! scores.

use marumaru::dynamic_pitch::apply_pitch_sync;
use marumaru::f0::cepstral_pick;
use marumaru::f0::fuse_frame;
use marumaru::f0::post_process_f0_curve;
use marumaru::f0::PitchEstimate;
use marumaru::fixed::FP_ONE;
use marumaru::fixed::FP_HALF;
use marumaru::mode_hybrid::apply_filter;
use marumaru::mode_hybrid::hybrid_combine;
use marumaru::mode_hybrid::hybrid_crossover;
use marumaru::mode_hybrid::BiquadCoeffs;
use marumaru::mode_time::analyze_time_domain;
use marumaru::pipeline::assemble_result;
use marumaru::pitch::periodicity;
use marumaru::pitch::select_mode;
use marumaru::pitch::DomainMode;
use marumaru::pitch::PERIODICITY_HYBRID_MIN;
use marumaru::pitch::PERIODICITY_TIME_MIN;
use marumaru::preprocess::apply_all_preprocessing;
use marumaru::preprocess::dc_remove;
use marumaru::preprocess::gate_mask;
use marumaru::preprocess::measure_rms;
use marumaru::preprocess::normalize;
use marumaru::preprocess::overlap_add;
use marumaru::preprocess::DEFAULT_DC_ALPHA;
use marumaru::preprocess::DEFAULT_TARGET_RMS;
use marumaru::preprocess::GATE_FFT_SIZE;
use marumaru::quality::correlation_score;
use marumaru::quality::degenerate_quality;
use marumaru::quality::resynthesize_audio;
use marumaru::quality::spectral_residual;
use marumaru::segment::segment_bounds;
use marumaru::types::AnalyzerError;

fn to_fp(x: f64) -> i64 {
    (x * FP_ONE as f64).round() as i64
}

fn from_fp(v: i64) -> f64 {
    v as f64 / FP_ONE as f64
}

#[test]
fn test_normalize_to_target_dbfs() {
    let rms = 10.0f64.powf(-20.0 / 20.0);
    let input: Vec<i64> = (0..100)
        .map(|i| to_fp((i as f64).sin() * rms * 2.0f64.sqrt()))
        .collect();
    let output = normalize(&input, DEFAULT_TARGET_RMS);
    let output_rms = (output.iter().map(|&s| from_fp(s) * from_fp(s)).sum::<f64>()
        / output.len() as f64)
        .sqrt();
    let target_rms = 10.0f64.powf(-10.0 / 20.0);
    assert!(
        (output_rms - target_rms).abs() < 1e-6,
        "normalized RMS {} differs from the target {}",
        output_rms,
        target_rms
    );
}

#[test]
fn normalize_leaves_near_silence_untouched() {
    let input: Vec<i64> = vec![1, -2, 3, 0, 1];
    let output = normalize(&input, DEFAULT_TARGET_RMS);
    assert_eq!(output, input);
}

#[test]
fn test_dc_remove_positive_offset() {
    let signal_length = 2000usize;
    let mut input_signal = Vec::new();
    for i in 0..signal_length {
        let sine_val = (i as f64 * 0.1).sin();
        input_signal.push(to_fp(sine_val + 2.0));
    }
    let output_signal = dc_remove(&input_signal, DEFAULT_DC_ALPHA);
    let later: &[i64] = &output_signal[signal_length - 500..];
    let average: f64 = later.iter().map(|&s| from_fp(s)).sum::<f64>() / later.len() as f64;
    assert!(average.abs() < 1e-2, "DC offset not removed; mean {}", average);
}

#[test]
fn measure_rms_of_constant_signal() {
    let v = vec![to_fp(0.5); 64];
    let r = measure_rms(&v);
    // The RMS of a constant is the constant (up to the floor of the
    // integer square root).
    assert!((from_fp(r) - 0.5).abs() < 1e-8);
}

#[test]
fn preprocessing_rejects_empty_input() {
    let empty: Vec<i64> = Vec::new();
    let r = apply_all_preprocessing(&empty);
    assert_eq!(r.unwrap_err(), AnalyzerError::InputError);
    assert_eq!(AnalyzerError::InputError.message(), "Input audio is empty.");
}

#[test]
fn gate_mask_silences_bins_under_the_floor() {
    // Two frames; the second is quieter in every bin, so it defines the
    // floor. A bin is gated exactly when 2·mag < 3·floor.
    let loud: Vec<i64> = (0..GATE_FFT_SIZE).map(|i| to_fp(1.0) + (i as i64)).collect();
    let quiet: Vec<i64> = vec![to_fp(0.8); GATE_FFT_SIZE];
    let mask = gate_mask(&vec![loud.clone(), quiet.clone()]);
    assert_eq!(mask.len(), 2);
    assert_eq!(mask[0].len(), 513);
    for i in 0..513 {
        assert_eq!(mask[0][i], 2 * loud[i] < 3 * quiet[i]);
        assert!(mask[1][i], "the floor frame itself lies under 1.5x its own floor");
    }
}

#[test]
fn overlap_add_with_unit_window_restores_one_frame() {
    let frame: Vec<i64> = (0..GATE_FFT_SIZE).map(|i| to_fp(0.001) * (i as i64 % 7)).collect();
    let window = vec![FP_ONE; GATE_FFT_SIZE];
    let out = overlap_add(&vec![frame.clone()], &window, 32);
    assert_eq!(out.len(), 32);
    for i in 0..32 {
        assert_eq!(out[i], frame[i]);
    }
}

#[test]
fn mode_selection_boundaries_are_inclusive() {
    // A confidence curve sitting exactly on a threshold selects the mode at
    // that threshold: 0.6 is Time, 0.35 is Hybrid, empty (0) is Frequency.
    let at_time = vec![PERIODICITY_TIME_MIN; 4];
    assert_eq!(periodicity(&at_time), PERIODICITY_TIME_MIN);
    assert_eq!(select_mode(periodicity(&at_time)), DomainMode::Time);
    let at_hybrid = vec![PERIODICITY_HYBRID_MIN; 3];
    assert_eq!(select_mode(periodicity(&at_hybrid)), DomainMode::Hybrid);
    let empty: Vec<i64> = Vec::new();
    assert_eq!(periodicity(&empty), 0);
    assert_eq!(select_mode(0), DomainMode::Frequency);
    assert_eq!(select_mode(PERIODICITY_TIME_MIN - 1), DomainMode::Hybrid);
    assert_eq!(select_mode(PERIODICITY_HYBRID_MIN - 1), DomainMode::Frequency);
}

#[test]
fn pitch_sync_is_identity_without_voiced_frames() {
    let tables = vec![
        (0..32).map(|i| to_fp((i as f64 / 32.0).sin())).collect::<Vec<i64>>(),
        vec![to_fp(0.25); 7],
    ];
    let curve = vec![0i64; 50];
    let out = apply_pitch_sync(&tables, &curve).unwrap();
    assert_eq!(out, tables);
}

#[test]
fn segment_bounds_order_inverted_ratios() {
    // An inverted pair is clamped against itself: the core end never
    // exceeds the release start.
    let (ce, rs) = segment_bounds(100, to_fp(0.8), to_fp(0.3));
    assert_eq!((ce, rs), (30, 80));
    assert!(ce <= rs && rs <= 100);
    // Out-of-range ratios are clamped into [0, 1] first.
    let (ce2, rs2) = segment_bounds(100, to_fp(-2.0), to_fp(7.5));
    assert_eq!((ce2, rs2), (0, 100));
}

#[test]
fn assembled_core_gain_starts_at_exactly_zero() {
    let audio: Vec<i64> = (0..2000).map(|i| to_fp(0.5 * ((i as f64) * 0.01).sin())).collect();
    let table: Vec<i64> = (0..100).map(|i| to_fp(((i as f64) * 0.1).sin())).collect();
    let res = assemble_result(
        &audio,
        vec![to_fp(440.0); 10],
        vec![to_fp(0.9); 10],
        vec![table],
        to_fp(0.3),
        to_fp(0.7),
        degenerate_quality(),
    )
    .unwrap();
    assert_eq!(res.core_wave.len(), 30);
    assert_eq!(res.loop_wave.len(), 40);
    assert_eq!(res.release_wave.len(), 30);
    assert_eq!(res.core_gain[0], 0, "the core envelope must start at exactly zero");
    assert_eq!(res.core_gain.len() + res.loop_gain.len() + res.release_gain.len(), 100);
}

#[test]
fn assemble_without_tables_is_a_synthesis_failure() {
    let audio: Vec<i64> = vec![to_fp(0.1); 100];
    let r = assemble_result(
        &audio,
        Vec::new(),
        Vec::new(),
        Vec::new(),
        0,
        0,
        degenerate_quality(),
    );
    assert_eq!(r.unwrap_err(), AnalyzerError::SynthesisEmptyResult);
}

#[test]
fn test_time_domain_on_pure_sine() {
    const SAMPLE_RATE: u32 = 48000;
    const SIGNAL_FREQ: f64 = 440.0;
    const SIGNAL_LEN: usize = SAMPLE_RATE as usize;
    let mut signal = Vec::new();
    for i in 0..SIGNAL_LEN {
        let time = i as f64 / SAMPLE_RATE as f64;
        signal.push(to_fp((2.0 * std::f64::consts::PI * SIGNAL_FREQ * time).sin()));
    }
    let f0_curve = vec![to_fp(SIGNAL_FREQ); 100];
    let result = analyze_time_domain(&signal, SAMPLE_RATE, &f0_curve);
    assert!(result.is_ok());
    let tables = result.unwrap();
    assert_eq!(tables.len(), 1, "exactly one wavetable should be produced");
    let table = &tables[0];
    let expected_len = (SAMPLE_RATE as f64 / SIGNAL_FREQ).round() as usize;
    assert_eq!(table.len(), expected_len, "wrong wavetable length");
    let peak_idx = (expected_len as f64 * 0.25).round() as usize;
    let trough_idx = (expected_len as f64 * 0.75).round() as usize;
    let tolerance = 0.05;
    assert!(
        (from_fp(table[peak_idx]) - 1.0).abs() < tolerance,
        "wrong waveform peak; expected ~1.0, got {}",
        from_fp(table[peak_idx])
    );
    assert!(
        (from_fp(table[trough_idx]) - -1.0).abs() < tolerance,
        "wrong waveform trough; expected ~-1.0, got {}",
        from_fp(table[trough_idx])
    );
}

#[test]
fn time_domain_without_voiced_frames_is_a_pitch_failure() {
    let signal = vec![to_fp(0.5); 4096];
    let curve = vec![0i64; 8];
    let r = analyze_time_domain(&signal, 48000, &curve);
    assert_eq!(r.unwrap_err(), AnalyzerError::PitchEstimationFailure);
}

#[test]
fn test_hybrid_synthesis_logic() {
    // Opposite low- and high-band tables cancel exactly.
    let low_table = vec![to_fp(1.0); 100];
    let high_table = vec![to_fp(-1.0); 100];
    let final_table = hybrid_combine(&low_table, &high_table);
    assert_eq!(final_table.len(), 100);
    let sum: i64 = final_table.iter().map(|x| x.abs()).sum();
    assert_eq!(sum, 0, "hybrid synthesis must cancel; sum of magnitudes {}", sum);
}

#[test]
fn hybrid_crossover_clamps_five_times_the_average() {
    // Average 100 Hz: five times is 500, clamped up to 800.
    let low = vec![to_fp(100.0); 4];
    assert_eq!(hybrid_crossover(&low).unwrap(), to_fp(800.0));
    // Average 1000 Hz: five times is 5000, clamped down to 3000.
    let high = vec![to_fp(1000.0); 4];
    assert_eq!(hybrid_crossover(&high).unwrap(), to_fp(3000.0));
    // 300 Hz stays at 1500.
    let mid = vec![to_fp(300.0); 4];
    assert_eq!(hybrid_crossover(&mid).unwrap(), to_fp(1500.0));
    let unvoiced = vec![0i64; 4];
    assert_eq!(hybrid_crossover(&unvoiced).unwrap_err(), AnalyzerError::PitchEstimationFailure);
}

#[test]
fn unit_biquad_passes_and_its_highpass_cancels() {
    let audio: Vec<i64> = (0..64).map(|i| to_fp(((i as f64) * 0.3).sin())).collect();
    let unit = BiquadCoeffs { b0: FP_ONE, b1: 0, b2: 0, a1: 0, a2: 0 };
    let low = apply_filter(&audio, &unit, false);
    assert_eq!(low, audio);
    let high = apply_filter(&audio, &unit, true);
    assert!(high.iter().all(|&s| s == 0));
}

#[test]
fn cepstral_pick_finds_the_period_peak() {
    // A 2048-sample cepstrum with one clear peak at period 109 samples.
    let mut cep = vec![0i64; 2048];
    cep[109] = 2048 * FP_HALF;
    let e = cepstral_pick(&cep, 48000, 2048);
    // 48000 Hz over 109 samples, in Q32.
    assert_eq!(e.f0, 48000i64 * FP_ONE / 109);
    assert_eq!(e.confidence, FP_HALF);
    // An all-zero cepstrum yields the unvoiced estimate.
    let zero = vec![0i64; 2048];
    let z = cepstral_pick(&zero, 48000, 2048);
    assert_eq!((z.f0, z.confidence), (0, 0));
}

#[test]
fn fusion_prefers_a_clear_detector_hit() {
    let yin = PitchEstimate { f0: to_fp(440.0), confidence: to_fp(0.9) };
    let cep = PitchEstimate { f0: to_fp(220.0), confidence: to_fp(0.95) };
    assert_eq!(fuse_frame(Some(yin), cep), yin);
    // A hesitant detector loses to a more confident cepstral estimate.
    let weak = PitchEstimate { f0: to_fp(440.0), confidence: to_fp(0.3) };
    assert_eq!(fuse_frame(Some(weak), cep), cep);
    let weaker_cep = PitchEstimate { f0: to_fp(220.0), confidence: to_fp(0.2) };
    assert_eq!(fuse_frame(Some(weak), weaker_cep), weak);
    assert_eq!(fuse_frame(None, cep), cep);
}

#[test]
fn gap_fill_interpolates_interior_runs_only() {
    // Linear case: one boundary on each side but no second context point.
    let mut curve = vec![to_fp(100.0), 0, to_fp(200.0)];
    post_process_f0_curve(&mut curve);
    assert_eq!(curve, vec![to_fp(100.0), to_fp(150.0), to_fp(200.0)]);
    // Catmull-Rom on collinear context points is exact linear interpolation.
    let q = FP_ONE;
    let mut spline = vec![1 * q, 9 * q, 0, 17 * q, 25 * q];
    post_process_f0_curve(&mut spline);
    assert_eq!(spline, vec![1 * q, 9 * q, 13 * q, 17 * q, 25 * q]);
    // Leading and trailing runs stay unvoiced.
    let mut edges = vec![0, 0, to_fp(300.0), 0];
    post_process_f0_curve(&mut edges);
    assert_eq!(edges, vec![0, 0, to_fp(300.0), 0]);
}

#[test]
fn quality_metrics_stay_in_range() {
    let a: Vec<i64> = (0..512).map(|i| to_fp(((i as f64) * 0.2).sin())).collect();
    let noisy: Vec<i64> = a.iter().enumerate().map(|(i, &v)| v + to_fp(0.01) * ((i % 3) as i64)).collect();
    let corr = correlation_score(&a, &noisy);
    assert!(corr >= 0 && corr <= FP_ONE, "correlation must lie in [0, 1]");
    assert!(from_fp(corr) > 0.9, "near-identical signals correlate highly");
    let self_corr = correlation_score(&a, &a);
    assert!(from_fp(self_corr) > 0.999);
    let mags_a = vec![to_fp(1.0), to_fp(2.0), to_fp(3.0)];
    let mags_b = vec![to_fp(1.0), to_fp(1.0), to_fp(3.0)];
    let resid = spectral_residual(&mags_a, &mags_b);
    assert!(resid >= 0);
    let exact = spectral_residual(&mags_a, &mags_a);
    assert_eq!(exact, 0);
    let d = degenerate_quality();
    assert_eq!((d.correlation, d.spectral_residual, d.nan_ratio), (0, FP_ONE, 0));
}

#[test]
fn resynthesis_of_empty_table_is_silence() {
    let table: Vec<i64> = Vec::new();
    let curve = vec![to_fp(440.0); 4];
    let out = resynthesize_audio(&table, &curve, 48000, 64);
    assert_eq!(out.len(), 64);
    assert!(out.iter().all(|&s| s == 0));
}
