//! The analyzer front end: profile-driven parameter selection and the data
//! shapes of its two result families. Amplitudes, phases and frequencies are
//! Q32 fixed point, as everywhere in this crate.

use vstd::prelude::*;
use crate::fixed::FP_HALF;

verus! {

/// Which kind of analysis a request asks for.
#[derive(Debug, Clone, Copy, PartialEq, Eq, Structural)]
pub enum AnalysisMode {
    Additive,
    Wavetable,
}

/// Source-material profile that picks the transform parameters.
#[derive(Debug, Clone, Copy, PartialEq, Eq, Structural)]
pub enum AnalysisProfile {
    Natural,
    Percussive,
    Metallic,
    Synthetic,
}

/// How synthesis treats the phase of each partial.
#[derive(Debug, Clone, Copy, PartialEq, Eq, Structural)]
pub enum PhaseStrategy {
    Preserve,
    ResetZero,
    AlignEnergyPeak,
    /// Blend between preserved and reset phase; the Q32 factor is the share
    /// of the preserved phase.
    Hybrid(i64),
}

/// Analysis window shape.
#[derive(Debug, Clone, Copy, PartialEq, Eq, Structural)]
pub enum WindowFunction {
    Hann,
    Blackman,
    Hamming,
    Rectangular,
}

/// One partial of an additive analysis: frequency in Q32 Hz, amplitude and
/// phase in Q32.
#[derive(Debug, Clone, PartialEq, Eq, Structural)]
pub struct Harmonic {
    pub frequency: i64,
    pub amplitude: i64,
    pub phase: i64,
}

/// Result of an additive analysis of one frame.
#[derive(Debug, Clone)]
pub struct AdditiveResult {
    pub harmonics: Vec<Harmonic>,
    pub pitch_curve: Vec<i64>,
}

/// Result of a wavetable analysis of one frame.
#[derive(Debug, Clone)]
pub struct WavetableResult {
    pub table: Vec<i64>,
    pub pitch_curve: Vec<i64>,
}

/// Either family of analysis result.
#[derive(Debug, Clone)]
pub enum AnalysisResult {
    Additive(AdditiveResult),
    Wavetable(WavetableResult),
}

/// Full parameter set of one analysis request.
#[derive(Debug, Clone)]
pub struct AnalysisParams {
    pub mode: AnalysisMode,
    pub profile: AnalysisProfile,
    pub fft_size: usize,
    pub hop_size: usize,
    pub window: WindowFunction,
    pub phase_strategy: Option<PhaseStrategy>,
    pub normalize: bool,
    pub table_length: Option<usize>,
}

impl AnalysisParams {
    /// The default parameters of each profile.
    pub fn from_profile(mode: AnalysisMode, profile: AnalysisProfile) -> (r: AnalysisParams)
        ensures
            r.mode == mode,
            r.profile == profile,
            r.normalize,
            r.table_length == Some(2048usize),
            profile is Natural ==> r.fft_size == 4096 && r.hop_size == 1024
                && r.window is Hann && r.phase_strategy == Some(PhaseStrategy::Preserve),
            profile is Percussive ==> r.fft_size == 1024 && r.hop_size == 256
                && r.window is Blackman && r.phase_strategy == Some(PhaseStrategy::AlignEnergyPeak),
            profile is Metallic ==> r.fft_size == 2048 && r.hop_size == 512
                && r.window is Hamming && r.phase_strategy == Some(PhaseStrategy::Hybrid(FP_HALF)),
            profile is Synthetic ==> r.fft_size == 1024 && r.hop_size == 256
                && r.window is Rectangular && r.phase_strategy == Some(PhaseStrategy::ResetZero),
    {
        match profile {
            AnalysisProfile::Natural => AnalysisParams {
                mode,
                profile,
                fft_size: 4096,
                hop_size: 1024,
                window: WindowFunction::Hann,
                phase_strategy: Some(PhaseStrategy::Preserve),
                normalize: true,
                table_length: Some(2048),
            },
            AnalysisProfile::Percussive => AnalysisParams {
                mode,
                profile,
                fft_size: 1024,
                hop_size: 256,
                window: WindowFunction::Blackman,
                phase_strategy: Some(PhaseStrategy::AlignEnergyPeak),
                normalize: true,
                table_length: Some(2048),
            },
            AnalysisProfile::Metallic => AnalysisParams {
                mode,
                profile,
                fft_size: 2048,
                hop_size: 512,
                window: WindowFunction::Hamming,
                phase_strategy: Some(PhaseStrategy::Hybrid(FP_HALF)),
                normalize: true,
                table_length: Some(2048),
            },
            AnalysisProfile::Synthetic => AnalysisParams {
                mode,
                profile,
                fft_size: 1024,
                hop_size: 256,
                window: WindowFunction::Rectangular,
                phase_strategy: Some(PhaseStrategy::ResetZero),
                normalize: true,
                table_length: Some(2048),
            },
        }
    }
}

/// The analyzer front end; holds the sample rate of the material.
pub struct Analyzer {
    pub sample_rate: u32,
}

impl Analyzer {
    /// A new analyzer for material at `sample_rate` Hz.
    pub fn new(sample_rate: u32) -> (r: Analyzer)
        ensures
            r.sample_rate == sample_rate,
    {
        Analyzer { sample_rate }
    }

    /// The two placeholder analysis bodies of this front end synthesize
    /// their dummy tables with machine floats, so they live with the caller;
    /// this dispatcher's own decision is which family a request selects.
    pub fn selects_additive(&self, params: &AnalysisParams) -> (r: bool)
        ensures
            r == (params.mode is Additive),
    {
        match params.mode {
            AnalysisMode::Additive => true,
            AnalysisMode::Wavetable => false,
        }
    }
}

} // verus!
