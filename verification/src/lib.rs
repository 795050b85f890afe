//! An offline wavetable analysis pipeline and a real-time oscillator engine.
//!
//! A recorded mono waveform is reduced to a compact, pitch-normalized
//! wavetable representation (one averaged cycle, an averaged spectral
//! envelope, or a hybrid split by frequency band), segmented into
//! core/loop/release sections with amplitude envelopes, scored for quality,
//! and replayed by a small per-voice state machine that mixes up to three
//! oscillator units additively or by frequency modulation.
//!
//! All signal values are Q32 fixed-point integers (`fixed::FP_ONE` stands for
//! 1.0), so every amplitude computation is exact integer arithmetic with
//! verified bounds. Fourier transforms and the external pitch detector work
//! on machine floats and are therefore driven by the (unverified) caller:
//! the functions here consume their results as plain fixed-point values and
//! make every decision of the pipeline on them.

pub mod dispatch;
pub mod dynamic_pitch;
pub mod f0;
pub mod fixed;
pub mod mode_freq;
pub mod mode_hybrid;
pub mod mode_time;
pub mod oscillator;
pub mod pipeline;
pub mod pitch;
pub mod preprocess;
pub mod quality;
pub mod segment;
pub mod types;
pub mod wavetable;
