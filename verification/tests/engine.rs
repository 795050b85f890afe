//! Tests of the oscillator engine, the wavetable bank and the analyzer
//! front end.

use marumaru::dispatch::AnalysisMode;
use marumaru::dispatch::AnalysisParams;
use marumaru::dispatch::AnalysisProfile;
use marumaru::dispatch::WindowFunction;
use marumaru::fixed::FP_ONE;
use marumaru::fixed::FP_HALF;
use marumaru::oscillator::MixMode;
use marumaru::oscillator::OscillatorBank;
use marumaru::oscillator::OscillatorUnit;
use marumaru::oscillator::ParamBundle;
use marumaru::oscillator::PlayMode;
use marumaru::oscillator::WaveSection;
use marumaru::types::AnalyzerError;
use marumaru::wavetable::Wavetable;

fn to_fp(x: f64) -> i64 {
    (x * FP_ONE as f64).round() as i64
}

fn sine_table(len: usize, amp: f64) -> Vec<i64> {
    (0..len)
        .map(|i| to_fp(amp * (2.0 * std::f64::consts::PI * i as f64 / len as f64).sin()))
        .collect()
}

fn unit_with(core: Vec<i64>, loop_wave: Vec<i64>, release: Vec<i64>) -> OscillatorUnit {
    let mut u = OscillatorUnit::new(48000);
    u.load_data(core, loop_wave, release, Vec::new(), Vec::new(), Vec::new());
    u
}

#[test]
fn wave_section_new_len_empty() {
    let s = WaveSection::new(vec![1, 2, 3]);
    assert_eq!(s.len(), 3);
    assert!(!s.is_empty());
    assert!(!s.crossfade);
    let e = WaveSection::new(Vec::new());
    assert!(e.is_empty());
}

#[test]
fn load_data_sets_crossfade_only_with_loop_samples() {
    let mut u = OscillatorUnit::new(48000);
    u.load_data(vec![1], vec![2, 3], vec![4], vec![5], vec![6], vec![7]);
    assert!(u.loop_section.crossfade);
    assert!(!u.core.crossfade);
    assert_eq!(u.core.wavetable, vec![1]);
    assert_eq!(u.loop_section.wavetable, vec![2, 3]);
    assert_eq!(u.release_gain, vec![7]);
    u.load_data(vec![1], Vec::new(), vec![4], vec![5], Vec::new(), vec![7]);
    assert!(!u.loop_section.crossfade);
}

#[test]
fn transition_off_to_core_on_first_active_call() {
    let mut u = unit_with(sine_table(16, 0.5), sine_table(16, 0.5), Vec::new());
    assert_eq!(u.play_mode, PlayMode::Off);
    u.generate_sample(true, 0);
    assert_eq!(u.play_mode, PlayMode::Core);
    assert_eq!(u.position, FP_ONE);
}

#[test]
fn transition_short_core_falls_to_loop_at_once() {
    let mut u = unit_with(vec![to_fp(0.3)], sine_table(16, 0.5), Vec::new());
    u.generate_sample(true, 0);
    assert_eq!(u.play_mode, PlayMode::Loop);
}

#[test]
fn transition_core_to_loop_at_segment_end() {
    let core = sine_table(4, 0.5);
    let mut u = unit_with(core, sine_table(16, 0.5), Vec::new());
    // Off -> Core, then walk the 4-sample core: positions 0,1,2 play, then
    // the end is reached and the unit falls through to the loop.
    for _ in 0..4 {
        u.generate_sample(true, 0);
    }
    assert_eq!(u.play_mode, PlayMode::Loop);
    assert_eq!(u.position, 0);
}

#[test]
fn transition_short_loop_turns_off() {
    let mut u = unit_with(Vec::new(), vec![to_fp(0.2)], Vec::new());
    u.play_mode = PlayMode::Loop;
    u.generate_sample(true, 0);
    assert_eq!(u.play_mode, PlayMode::Off);
}

#[test]
fn transition_release_ends_in_off() {
    let mut u = unit_with(Vec::new(), Vec::new(), sine_table(3, 0.5));
    u.play_mode = PlayMode::Core;
    // Deactivation moves a sounding voice into Release at position 0.
    u.generate_sample(false, 0);
    assert_eq!(u.play_mode, PlayMode::Release);
    // Two playable positions (0 and 1), then the end turns the voice off.
    u.generate_sample(false, 0);
    u.generate_sample(false, 0);
    assert_eq!(u.play_mode, PlayMode::Off);
    // A release shorter than 2 samples turns off at once.
    let mut v = unit_with(Vec::new(), Vec::new(), vec![to_fp(0.2)]);
    v.play_mode = PlayMode::Release;
    v.generate_sample(false, 0);
    assert_eq!(v.play_mode, PlayMode::Off);
}

#[test]
fn additive_mix_is_exact_weighted_average() {
    let t1 = sine_table(32, 0.9);
    let t2 = sine_table(16, 0.7);
    let t3 = sine_table(8, 0.5);
    let mut bank = OscillatorBank::new(48000);
    bank.osc0.load_data(Vec::new(), t1, Vec::new(), Vec::new(), Vec::new(), Vec::new());
    bank.osc1.load_data(Vec::new(), t2, Vec::new(), Vec::new(), Vec::new(), Vec::new());
    bank.osc2.load_data(Vec::new(), t3, Vec::new(), Vec::new(), Vec::new(), Vec::new());
    let l1 = to_fp(0.8);
    let l2 = to_fp(0.6);
    let l3 = to_fp(0.4);
    bank.osc0.level = l1;
    bank.osc1.level = l2;
    bank.osc2.level = l3;
    bank.osc0.play_mode = PlayMode::Loop;
    bank.osc1.play_mode = PlayMode::Loop;
    bank.osc2.play_mode = PlayMode::Loop;
    bank.mix_mode = MixMode::Add;

    // Step the three units separately on clones to predict the mix.
    let mut c0 = bank.osc0.clone();
    let mut c1 = bank.osc1.clone();
    let mut c2 = bank.osc2.clone();
    for _ in 0..20 {
        let s1 = c0.generate_sample(true, 0) as i128;
        let s2 = c1.generate_sample(true, 0) as i128;
        let s3 = c2.generate_sample(true, 0) as i128;
        let q = FP_ONE as i128;
        let mul = |a: i128, b: i128| -> i128 {
            let p = a * b;
            if p >= 0 { p / q } else { -((-p) / q) }
        };
        let total = mul(s1, l1 as i128) + mul(s2, l2 as i128) + mul(s3, l3 as i128);
        let expected = if total >= 0 { total / 3 } else { -((-total) / 3) };
        let got = bank.process_bank(true, 0);
        assert_eq!(got as i128, expected, "additive mix must equal (s1*l1+s2*l2+s3*l3)/3");
    }
}

#[test]
fn fm_carrier_core_passes_gained_output_through() {
    let mut bank = OscillatorBank::new(48000);
    bank.mix_mode = MixMode::FM;
    bank.osc0.load_data(
        sine_table(8, 0.5),
        sine_table(16, 0.5),
        Vec::new(),
        Vec::new(),
        Vec::new(),
        Vec::new(),
    );
    bank.osc1.load_data(Vec::new(), sine_table(16, 0.5), Vec::new(), Vec::new(), Vec::new(), Vec::new());
    bank.osc0.play_mode = PlayMode::Core;
    let mut clone0 = bank.osc0.clone();
    let expected = clone0.generate_sample(true, 0);
    let got = bank.process_bank(true, 0);
    assert_eq!(got, expected);
    // The modulator never advanced.
    assert_eq!(bank.osc1.play_mode, PlayMode::Off);
}

#[test]
fn note_on_tunes_and_rewinds_every_unit() {
    let mut bank = OscillatorBank::new(48000);
    let freq = 440 * FP_ONE;
    bank.note_on(freq);
    for u in [&bank.osc0, &bank.osc1, &bank.osc2] {
        assert_eq!(u.frequency, freq);
        assert_eq!(u.position, 0);
        assert_eq!(u.play_mode, PlayMode::Core);
        assert_eq!(u.fm_phase, 0);
    }
}

#[test]
fn apply_params_routes_bundle_fields() {
    let mut bank = OscillatorBank::new(48000);
    let p = ParamBundle {
        attack: 0,
        decay: 0,
        sustain: 0,
        release: 0,
        blend: to_fp(0.25),
        cutoff: 0,
        resonance: 0,
        osc1_level: to_fp(0.9),
        osc2_level: to_fp(0.8),
        osc3_level: to_fp(0.1),
        osc1_ratio: FP_ONE,
        osc2_ratio: 2 * FP_ONE,
        osc3_ratio: 3 * FP_ONE,
        fm_index: 5 * FP_ONE,
        mix_mode_f: FP_ONE,
    };
    bank.apply_params(&p);
    assert_eq!(bank.mix_mode, MixMode::FM);
    assert_eq!(bank.fm_mix, to_fp(0.25));
    assert_eq!(bank.osc0.level, to_fp(0.9));
    assert_eq!(bank.osc1.modulation_index, 5 * FP_ONE);
    assert_eq!(bank.osc2.ratio, 3 * FP_ONE);
    let p2 = ParamBundle { mix_mode_f: FP_HALF - 1, ..p };
    bank.apply_params(&p2);
    assert_eq!(bank.mix_mode, MixMode::Add);
}

#[test]
fn render_block_plays_a_loaded_note() {
    let mut bank = OscillatorBank::new(48000);
    bank.osc0.load_data(
        Vec::new(),
        sine_table(64, 0.9),
        Vec::new(),
        Vec::new(),
        Vec::new(),
        Vec::new(),
    );
    bank.osc1.level = 0;
    bank.osc2.level = 0;
    bank.note_on(440 * FP_ONE);
    let block = bank.render_block(true, FP_ONE, 128);
    assert_eq!(block.len(), 128);
    assert!(block.iter().any(|&s| s != 0), "buffer should not be silent after a note on");
}

#[test]
fn wavetable_reads_between_samples() {
    let mut wt = Wavetable::new(2);
    wt.add_table(vec![0, FP_ONE]);
    // Phase 0.25 lands halfway into the first of the two samples.
    let v = wt.sample_from_table(0, to_fp(0.25));
    assert_eq!(v, FP_HALF);
    // Morphing halfway between a table and itself is the same read.
    let m = wt.morph_sample(0, 0, FP_HALF, to_fp(0.25));
    assert_eq!(m, FP_HALF);
}

#[test]
fn from_profile_fills_the_documented_defaults() {
    let p = AnalysisParams::from_profile(AnalysisMode::Wavetable, AnalysisProfile::Natural);
    assert_eq!(p.fft_size, 4096);
    assert_eq!(p.hop_size, 1024);
    assert!(matches!(p.window, WindowFunction::Hann));
    assert_eq!(p.table_length, Some(2048));
    assert!(p.normalize);
    let q = AnalysisParams::from_profile(AnalysisMode::Additive, AnalysisProfile::Percussive);
    assert_eq!(q.fft_size, 1024);
    assert_eq!(q.hop_size, 256);
    assert!(matches!(q.window, WindowFunction::Blackman));
}

#[test]
fn error_messages_name_their_failure() {
    assert_eq!(AnalyzerError::InputError.message(), "Input audio is empty.");
    assert_eq!(
        AnalyzerError::PitchEstimationFailure.message(),
        "Could not determine a valid average F0 from the curve."
    );
}
