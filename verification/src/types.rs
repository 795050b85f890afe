//! Shared data model of the analysis pipeline: the error taxonomy, the
//! quality metrics, and the aggregate analysis result.

use vstd::prelude::*;

verus! {

/// Terminal failures of the offline pipeline. The real-time path never
/// raises one of these; it falls through toward silence instead.
#[derive(Debug, Clone, Copy, PartialEq, Eq, Structural)]
pub enum AnalyzerError {
    /// Empty or too-short audio, or an out-of-range region.
    InputError,
    /// No usable average fundamental frequency where one is required.
    PitchEstimationFailure,
    /// The short-time transform yields no usable spectrogram.
    DomainAnalysisFailure,
    /// Zero cycles or tables were produced.
    SynthesisEmptyResult,
}

impl AnalyzerError {
    /// The canonical description of each failure.
    pub fn message(&self) -> (r: &'static str)
        ensures
            *self is InputError ==> r@ == "Input audio is empty."@,
            *self is PitchEstimationFailure ==> r@
                == "Could not determine a valid average F0 from the curve."@,
            *self is DomainAnalysisFailure ==> r@
                == "Could not generate spectrogram from the audio."@,
            *self is SynthesisEmptyResult ==> r@
                == "No cycles could be extracted from the audio."@,
    {
        match self {
            AnalyzerError::InputError => "Input audio is empty.",
            AnalyzerError::PitchEstimationFailure => {
                "Could not determine a valid average F0 from the curve."
            },
            AnalyzerError::DomainAnalysisFailure => {
                "Could not generate spectrogram from the audio."
            },
            AnalyzerError::SynthesisEmptyResult => {
                "No cycles could be extracted from the audio."
            },
        }
    }
}

/// Quality scores of a finished analysis, in Q32 fixed point.
#[derive(Debug, Clone, PartialEq, Eq, Structural)]
pub struct QualityMetrics {
    /// Mean-centered normalized correlation of original and resynthesis,
    /// clamped into [0, 1].
    pub correlation: i64,
    /// Relative spectral magnitude residual, at least 0.
    pub spectral_residual: i64,
    /// Share of undetermined frames; the analysis never fills it in, so it
    /// is always 0 (a documented gap of the design).
    pub nan_ratio: i64,
}

/// Everything one analysis call produces; immutable after creation.
#[derive(Debug, Clone)]
pub struct AnalysisResult {
    /// Per-hop fundamental frequency estimates in Q32 Hz; 0 marks unvoiced.
    pub f0_curve: Vec<i64>,
    /// Per-hop confidence, each in [0, FP_ONE].
    pub confidence: Vec<i64>,
    /// The synthesized single-cycle tables.
    pub tables: Vec<Vec<i64>>,
    /// Non-looping attack segment of the main table.
    pub core_wave: Vec<i64>,
    /// Looping middle segment of the main table.
    pub loop_wave: Vec<i64>,
    /// Non-looping release segment of the main table.
    pub release_wave: Vec<i64>,
    /// Amplitude envelope of the core segment; starts at exactly 0.
    pub core_gain: Vec<i64>,
    /// Amplitude envelope of the loop segment.
    pub loop_gain: Vec<i64>,
    /// Amplitude envelope of the release segment.
    pub release_gain: Vec<i64>,
    /// Self-check scores of the analysis.
    pub quality: QualityMetrics,
}

/// Which representation an analysis produces.
#[derive(Debug, Clone, Copy, PartialEq, Eq, Structural)]
pub enum AnalysisMode {
    Wavetable,
    Additive,
}

/// Broad source-material profile used to pick analysis parameters.
#[derive(Debug, Clone, Copy, PartialEq, Eq, Structural)]
pub enum AnalysisProfile {
    Natural,
    Electronic,
}

/// Common transform parameters shared by the analysis stages.
pub struct AnalysisParams {
    pub fft_size: usize,
    pub hop_size: usize,
}

} // verus!
