//! The real-time oscillator engine: a per-voice playback state machine over
//! core/loop/release wave segments, and a bank that mixes three units
//! additively or by frequency modulation.
//!
//! Positions, phases, frequencies and samples are Q32 fixed point. A unit's
//! step is described exactly by the spec functions `unit_step` (play mode,
//! position and gained sample) and `fm_phase_next`; the bank's step by
//! `bank_step`. The render path never fails: a missing or too-short segment
//! makes the state machine fall through toward `Off` and silence.

use vstd::prelude::*;
use crate::fixed::FP_ONE;
use crate::fixed::FP_HALF;
use crate::fixed::AMP_LIMIT;
use crate::fixed::MAX_LEN;
use crate::fixed::bounded;
use crate::fixed::div_trunc;
use crate::fixed::fp_mul_spec;
use crate::fixed::lerp_spec;
use crate::fixed::fp_mul;
use crate::fixed::lerp;
use crate::fixed::rem_euclid_i64;
use crate::fixed::mul_div_nn;
use crate::fixed::div_trunc_i128;
use crate::fixed::fp_round_nn;
use crate::fixed::fp_round_nn_spec;
use crate::fixed::lemma_div_trunc_bound;
use crate::fixed::lemma_fp_mul_bound;

verus! {

/// Playback state of one oscillator unit; exactly one holds at any time.
#[derive(Debug, Clone, Copy, PartialEq, Eq, Structural)]
pub enum PlayMode {
    Off,
    Core,
    Loop,
    Release,
}

/// Synthesis flavor of a single unit.
#[derive(Debug, Clone, Copy, PartialEq, Eq, Structural)]
pub enum OscillatorMode {
    FM,
    Additive,
}

/// How the bank combines its three units.
#[derive(Debug, Clone, Copy, PartialEq, Eq, Structural)]
pub enum MixMode {
    FM,
    Add,
}

/// One wave segment: its single-cycle samples and whether the loop
/// crossfade applies to it.
#[derive(Debug, Clone)]
pub struct WaveSection {
    pub wavetable: Vec<i64>,
    pub crossfade: bool,
}

impl WaveSection {
    /// A fresh section around `wavetable`, with the crossfade off.
    pub fn new(wavetable: Vec<i64>) -> (r: WaveSection)
        ensures
            r.wavetable == wavetable,
            !r.crossfade,
    {
        WaveSection { wavetable, crossfade: false }
    }

    /// Number of samples in the section.
    pub fn len(&self) -> (r: usize)
        ensures
            r == self.wavetable.len(),
    {
        self.wavetable.len()
    }

    /// Whether the section holds no samples.
    pub fn is_empty(&self) -> (r: bool)
        ensures
            r == (self.wavetable.len() == 0),
    {
        self.wavetable.len() == 0
    }
}

/// Wrapping linear read of `wave` at Q32 index `idx`: the index is wrapped
/// into one table span, split into whole and fractional parts, and the two
/// neighboring samples are interpolated. An empty table reads as 0.
pub open spec fn sample_linear_spec(wave: Seq<i64>, idx: int) -> int {
    if wave.len() == 0 {
        0
    } else {
        let span = (wave.len() as int) * (FP_ONE as int);
        let w = idx % span;
        let i0 = w / (FP_ONE as int);
        let f = w % (FP_ONE as int);
        lerp_spec(wave[i0] as int, wave[(i0 + 1) % (wave.len() as int)] as int, f)
    }
}

/// Wrapping linear read of a bounded table at a Q32 index.
pub fn sample_linear(wave: &Vec<i64>, idx: i64) -> (r: i64)
    requires
        wave.len() <= MAX_LEN,
        bounded(wave@, AMP_LIMIT as int),
        (i64::MIN as int) < (idx as int),
    ensures
        r as int == sample_linear_spec(wave@, idx as int),
        -2 * AMP_LIMIT <= r <= 2 * AMP_LIMIT,
{
    let n = wave.len();
    if n == 0 {
        return 0;
    }
    let span: i64 = (n as i64) * FP_ONE;
    let w = rem_euclid_i64(idx, span);
    let i0_i: i64 = w / FP_ONE;
    proof {
        vstd::arithmetic::div_mod::lemma_fundamental_div_mod(w as int, FP_ONE as int);
        vstd::arithmetic::div_mod::lemma_mod_bound(w as int, FP_ONE as int);
        assert((w as int) / (FP_ONE as int) == i0_i as int);
    }
    let i0: usize = i0_i as usize;
    let f: i64 = w - i0_i * FP_ONE;
    proof {
        assert(f as int == (w as int) % (FP_ONE as int));
        assert(i0 < n);
    }
    let i1: usize = if i0 + 1 == n {
        0
    } else {
        i0 + 1
    };
    proof {
        if i0 + 1 == n {
            vstd::arithmetic::div_mod::lemma_mod_multiples_vanish(1, 0, n as int);
            vstd::arithmetic::div_mod::lemma_small_mod(0nat, n as nat);
        } else {
            vstd::arithmetic::div_mod::lemma_small_mod((i0 + 1) as nat, n as nat);
        }
    }
    lerp(wave[i0], wave[i1], f)
}

/// A single oscillator voice: its three wave segments, their gain
/// envelopes, and the mutable playback state.
#[derive(Debug, Clone)]
pub struct OscillatorUnit {
    pub core: WaveSection,
    pub loop_section: WaveSection,
    pub release: WaveSection,
    pub core_gain: Vec<i64>,
    pub loop_gain: Vec<i64>,
    pub release_gain: Vec<i64>,
    pub mode: OscillatorMode,
    /// Sample rate in Hz (a whole number).
    pub sample_rate: i64,
    /// Read position in Q32 samples of the current segment.
    pub position: i64,
    /// Oscillation frequency in Q32 Hz.
    pub frequency: i64,
    pub play_mode: PlayMode,
    /// Output level in [0, 1] as Q32.
    pub level: i64,
    /// Frequency ratio of the frequency-modulation phase, Q32, at most 16.
    pub ratio: i64,
    /// Modulation depth applied to the carrier phase, Q32, at most 256.
    pub modulation_index: i64,
    /// Feedback amount (reserved), Q32.
    pub feedback: i64,
    /// Free-running modulation phase in [0, 1) as Q32.
    pub fm_phase: i64,
    /// The unit's previous gained output sample.
    pub fm_output: i64,
}

impl OscillatorUnit {
    /// The machine-limit bounds every operation of the engine preserves.
    pub open spec fn well_formed(self) -> bool {
        &&& self.core.wavetable.len() <= MAX_LEN
        &&& self.loop_section.wavetable.len() <= MAX_LEN
        &&& self.release.wavetable.len() <= MAX_LEN
        &&& self.core_gain.len() <= MAX_LEN
        &&& self.loop_gain.len() <= MAX_LEN
        &&& self.release_gain.len() <= MAX_LEN
        &&& bounded(self.core.wavetable@, AMP_LIMIT as int)
        &&& bounded(self.loop_section.wavetable@, AMP_LIMIT as int)
        &&& bounded(self.release.wavetable@, AMP_LIMIT as int)
        &&& bounded(self.core_gain@, AMP_LIMIT as int)
        &&& bounded(self.loop_gain@, AMP_LIMIT as int)
        &&& bounded(self.release_gain@, AMP_LIMIT as int)
        &&& 1000 <= self.sample_rate <= 4294967296
        &&& 0 <= self.frequency <= 4503599627370496
        &&& (self.frequency as int) <= 68719476736 * (self.sample_rate as int)
        &&& 0 <= self.position <= 72057594037927936
        &&& 0 <= self.level <= FP_ONE
        &&& 0 <= self.ratio <= 68719476736
        &&& 0 <= self.modulation_index <= 1099511627776
        &&& -AMP_LIMIT <= self.feedback <= AMP_LIMIT
        &&& 0 <= self.fm_phase < FP_ONE
        &&& -4611686018427387904 <= self.fm_output <= 4611686018427387904
    }

    /// A freshly constructed unit: silent, empty, tuned to 440 Hz.
    pub open spec fn is_fresh(self, sample_rate: i64) -> bool {
        &&& self.core.wavetable.len() == 0
        &&& self.loop_section.wavetable.len() == 0
        &&& self.release.wavetable.len() == 0
        &&& self.core_gain.len() == 0
        &&& self.loop_gain.len() == 0
        &&& self.release_gain.len() == 0
        &&& self.mode is Additive
        &&& self.sample_rate == sample_rate
        &&& self.position == 0
        &&& self.frequency == 440 * FP_ONE
        &&& self.play_mode is Off
        &&& self.level == FP_ONE
        &&& self.ratio == FP_ONE
        &&& self.modulation_index == 0
        &&& self.feedback == 0
        &&& self.fm_phase == 0
        &&& self.fm_output == 0
    }

    /// A silent, empty unit at `sample_rate` Hz, tuned to 440 Hz.
    pub fn new(sample_rate: i64) -> (r: OscillatorUnit)
        requires
            1000 <= sample_rate <= 4294967296,
        ensures
            r.well_formed(),
            r.is_fresh(sample_rate),
            r.core.wavetable.len() == 0,
            r.loop_section.wavetable.len() == 0,
            r.release.wavetable.len() == 0,
            r.core_gain.len() == 0,
            r.loop_gain.len() == 0,
            r.release_gain.len() == 0,
            r.mode is Additive,
            r.sample_rate == sample_rate,
            r.position == 0,
            r.frequency == 440 * FP_ONE,
            r.play_mode is Off,
            r.level == FP_ONE,
            r.ratio == FP_ONE,
            r.modulation_index == 0,
            r.feedback == 0,
            r.fm_phase == 0,
            r.fm_output == 0,
    {
        OscillatorUnit {
            core: WaveSection::new(Vec::new()),
            loop_section: WaveSection::new(Vec::new()),
            release: WaveSection::new(Vec::new()),
            core_gain: Vec::new(),
            loop_gain: Vec::new(),
            release_gain: Vec::new(),
            mode: OscillatorMode::Additive,
            sample_rate,
            position: 0,
            frequency: 440 * FP_ONE,
            play_mode: PlayMode::Off,
            level: FP_ONE,
            ratio: FP_ONE,
            modulation_index: 0,
            feedback: 0,
            fm_phase: 0,
            fm_output: 0,
        }
    }

    /// Copy an analysis result's segments and envelopes into this unit's
    /// own storage (the one-time load step; the source buffers are moved in
    /// and owned here afterwards). The loop section gets its crossfade flag
    /// exactly when it holds samples; playback state is left untouched.
    pub fn load_data(
        &mut self,
        core_wave: Vec<i64>,
        loop_wave: Vec<i64>,
        release_wave: Vec<i64>,
        core_gain: Vec<i64>,
        loop_gain: Vec<i64>,
        release_gain: Vec<i64>,
    )
        requires
            old(self).well_formed(),
            core_wave.len() <= MAX_LEN,
            loop_wave.len() <= MAX_LEN,
            release_wave.len() <= MAX_LEN,
            core_gain.len() <= MAX_LEN,
            loop_gain.len() <= MAX_LEN,
            release_gain.len() <= MAX_LEN,
            bounded(core_wave@, AMP_LIMIT as int),
            bounded(loop_wave@, AMP_LIMIT as int),
            bounded(release_wave@, AMP_LIMIT as int),
            bounded(core_gain@, AMP_LIMIT as int),
            bounded(loop_gain@, AMP_LIMIT as int),
            bounded(release_gain@, AMP_LIMIT as int),
        ensures
            final(self).well_formed(),
            final(self).core.wavetable == core_wave,
            !final(self).core.crossfade,
            final(self).loop_section.wavetable == loop_wave,
            final(self).loop_section.crossfade == (loop_wave.len() > 0),
            final(self).release.wavetable == release_wave,
            !final(self).release.crossfade,
            final(self).core_gain == core_gain,
            final(self).loop_gain == loop_gain,
            final(self).release_gain == release_gain,
            final(self).mode == old(self).mode,
            final(self).sample_rate == old(self).sample_rate,
            final(self).position == old(self).position,
            final(self).frequency == old(self).frequency,
            final(self).play_mode == old(self).play_mode,
            final(self).level == old(self).level,
            final(self).ratio == old(self).ratio,
            final(self).modulation_index == old(self).modulation_index,
            final(self).feedback == old(self).feedback,
            final(self).fm_phase == old(self).fm_phase,
            final(self).fm_output == old(self).fm_output,
    {
        let has_loop = loop_wave.len() > 0;
        self.core = WaveSection::new(core_wave);
        let mut loop_section = WaveSection::new(loop_wave);
        if has_loop {
            loop_section.crossfade = true;
        }
        self.loop_section = loop_section;
        self.release = WaveSection::new(release_wave);
        self.core_gain = core_gain;
        self.loop_gain = loop_gain;
        self.release_gain = release_gain;
    }
}

/// Play mode after the activation check at the top of a step: a first
/// active call starts the core, a deactivation releases a sounding voice.
pub open spec fn mode_after_activation(active: bool, m: PlayMode) -> PlayMode {
    if active && m is Off {
        PlayMode::Core
    } else if !active && (m is Core || m is Loop) {
        PlayMode::Release
    } else {
        m
    }
}

/// Position after the activation check: reset to 0 on a transition.
pub open spec fn pos_after_activation(active: bool, u: OscillatorUnit) -> int {
    if mode_after_activation(active, u.play_mode) == u.play_mode {
        u.position as int
    } else {
        0
    }
}

/// One step in the core segment at position `pos`: fixed-rate playback,
/// nearest-index gain lookup, and fall-through to the loop at the segment
/// end (immediately if the segment is shorter than 2 samples).
pub open spec fn core_step(u: OscillatorUnit, pos: int) -> (PlayMode, int, int) {
    let clen = u.core.wavetable.len() as int;
    if clen < 2 {
        (PlayMode::Loop, 0int, 0int)
    } else if pos < (clen - 1) * (FP_ONE as int) {
        let out = sample_linear_spec(u.core.wavetable@, pos);
        let gi = fp_round_nn_spec(pos);
        let g = if gi < u.core_gain.len() {
            u.core_gain@[gi] as int
        } else {
            FP_ONE as int
        };
        (PlayMode::Core, pos + FP_ONE, fp_mul_spec(out, g))
    } else {
        let last = sample_linear_spec(u.core.wavetable@, (clen - 1) * (FP_ONE as int));
        (PlayMode::Loop, 0int, fp_mul_spec(last, FP_ONE as int))
    }
}

/// One step in the loop segment at position `pos`: pitch-following
/// playback (the position advances by frequency × length / sample rate),
/// interpolated gain, wrapping at the loop length; a loop shorter than 2
/// samples turns the voice off.
pub open spec fn loop_step(u: OscillatorUnit, pos: int) -> (PlayMode, int, int) {
    let llen = u.loop_section.wavetable.len() as int;
    if llen < 2 {
        (PlayMode::Off, pos, 0int)
    } else {
        let span = llen * (FP_ONE as int);
        let wpos = pos % span;
        let inc = (u.frequency as int) * llen / (u.sample_rate as int);
        let out = sample_linear_spec(u.loop_section.wavetable@, pos);
        let g = if u.loop_gain.len() > 0 {
            sample_linear_spec(u.loop_gain@, wpos * (u.loop_gain.len() as int) / llen)
        } else {
            FP_ONE as int
        };
        (PlayMode::Loop, (pos + inc) % span, fp_mul_spec(out, g))
    }
}

/// One step in the release segment at position `pos`: fixed-rate playback
/// with interpolated gain; the end of the segment (or a segment shorter
/// than 2 samples) turns the voice off.
pub open spec fn release_step(u: OscillatorUnit, pos: int) -> (PlayMode, int, int) {
    let rlen = u.release.wavetable.len() as int;
    if rlen < 2 {
        (PlayMode::Off, pos, 0int)
    } else if pos < (rlen - 1) * (FP_ONE as int) {
        let out = sample_linear_spec(u.release.wavetable@, pos);
        let g = if u.release_gain.len() > 0 {
            sample_linear_spec(u.release_gain@, pos * (u.release_gain.len() as int) / rlen)
        } else {
            FP_ONE as int
        };
        (PlayMode::Release, pos + FP_ONE, fp_mul_spec(out, g))
    } else {
        (PlayMode::Off, pos, 0int)
    }
}

/// The complete step of one unit: resulting play mode, resulting position,
/// and the gained output sample.
pub open spec fn unit_step(u: OscillatorUnit, active: bool) -> (PlayMode, int, int) {
    let m = mode_after_activation(active, u.play_mode);
    let pos = pos_after_activation(active, u);
    match m {
        PlayMode::Core => core_step(u, pos),
        PlayMode::Loop => loop_step(u, pos),
        PlayMode::Release => release_step(u, pos),
        PlayMode::Off => (PlayMode::Off, pos, 0int),
    }
}

/// The free-running modulation phase after one step: advanced by
/// frequency × ratio / sample rate and wrapped into [0, 1).
pub open spec fn fm_phase_next(u: OscillatorUnit) -> int {
    (u.fm_phase as int + div_trunc(
        fp_mul_spec(u.frequency as int, u.ratio as int),
        u.sample_rate as int,
    )) % (FP_ONE as int)
}

/// The whole unit after one generation step.
pub open spec fn unit_after(u: OscillatorUnit, active: bool) -> OscillatorUnit {
    let step = unit_step(u, active);
    OscillatorUnit {
        core: u.core,
        loop_section: u.loop_section,
        release: u.release,
        core_gain: u.core_gain,
        loop_gain: u.loop_gain,
        release_gain: u.release_gain,
        mode: u.mode,
        sample_rate: u.sample_rate,
        position: step.1 as i64,
        frequency: u.frequency,
        play_mode: step.0,
        level: u.level,
        ratio: u.ratio,
        modulation_index: u.modulation_index,
        feedback: u.feedback,
        fm_phase: fm_phase_next(u) as i64,
        fm_output: step.2 as i64,
    }
}

impl OscillatorUnit {
    /// Generate one sample: run the activation transition, play the current
    /// segment, advance the modulation phase, and return the gained output.
    /// The result is exactly `unit_step(*old(self), is_active).2`.
    pub fn generate_sample(&mut self, is_active: bool, _env_stage: usize) -> (r: i64)
        requires
            old(self).well_formed(),
        ensures
            final(self).well_formed(),
            *final(self) == unit_after(*old(self), is_active),
            r as int == unit_step(*old(self), is_active).2,
            -4611686018427387904 <= r <= 4611686018427387904,
    {
        if is_active && self.play_mode == PlayMode::Off {
            self.play_mode = PlayMode::Core;
            self.position = 0;
        } else if !is_active && (self.play_mode == PlayMode::Core || self.play_mode
            == PlayMode::Loop) {
            self.play_mode = PlayMode::Release;
            self.position = 0;
        }
        proof {
            assert(self.play_mode == mode_after_activation(is_active, old(self).play_mode));
            assert(self.position as int == pos_after_activation(is_active, *old(self)));
        }

        let mut output: i64 = 0;
        let mut gain: i64 = FP_ONE;

        match self.play_mode {
            PlayMode::Core => {
                let core_len = self.core.wavetable.len();
                let core_gain_len = self.core_gain.len();
                if core_len < 2 {
                    self.play_mode = PlayMode::Loop;
                    self.position = 0;
                } else if self.position < ((core_len - 1) as i64) * FP_ONE {
                    output = sample_linear(&self.core.wavetable, self.position);
                    let gain_index_w: u64 = fp_round_nn(self.position);
                    proof {
                        lemma_div_trunc_bound(
                            self.position as int + FP_HALF as int,
                            FP_ONE as int,
                            core_len as int,
                        );
                    }
                    let gain_index: usize = gain_index_w as usize;
                    if gain_index < core_gain_len {
                        gain = self.core_gain[gain_index];
                    }
                    self.position = self.position + FP_ONE;
                } else {
                    self.play_mode = PlayMode::Loop;
                    let last: i64 = ((core_len - 1) as i64) * FP_ONE;
                    output = sample_linear(&self.core.wavetable, last);
                    self.position = 0;
                }
            },
            PlayMode::Loop => {
                let loop_len = self.loop_section.wavetable.len();
                let loop_gain_len = self.loop_gain.len();
                if loop_len < 2 {
                    self.play_mode = PlayMode::Off;
                } else {
                    let span: i64 = (loop_len as i64) * FP_ONE;
                    let wpos = rem_euclid_i64(self.position, span);
                    output = sample_linear(&self.loop_section.wavetable, self.position);
                    if loop_gain_len > 0 {
                        proof {
                            vstd::arithmetic::mul::lemma_mul_nonnegative(
                                wpos as int,
                                loop_gain_len as int,
                            );
                            vstd::arithmetic::mul::lemma_mul_inequality(
                                wpos as int,
                                span as int,
                                loop_gain_len as int,
                            );
                            assert((span as int) * (loop_gain_len as int) == ((FP_ONE as int)
                                * (loop_gain_len as int)) * (loop_len as int)) by (nonlinear_arith)
                                requires
                                    span as int == (loop_len as int) * (FP_ONE as int),
                            ;
                            crate::fixed::lemma_div_nn_bound(
                                (wpos as int) * (loop_gain_len as int),
                                loop_len as int,
                                (FP_ONE as int) * (loop_gain_len as int),
                            );
                        }
                        let gp = mul_div_nn(wpos, loop_gain_len as i64, loop_len as i64);
                        gain = sample_linear(&self.loop_gain, gp);
                    }
                    proof {
                        vstd::arithmetic::mul::lemma_mul_nonnegative(
                            self.frequency as int,
                            loop_len as int,
                        );
                        vstd::arithmetic::mul::lemma_mul_inequality(
                            self.frequency as int,
                            68719476736 * (self.sample_rate as int),
                            loop_len as int,
                        );
                        assert((68719476736 * (self.sample_rate as int)) * (loop_len as int)
                            == (68719476736 * (loop_len as int)) * (self.sample_rate as int))
                            by (nonlinear_arith);
                        crate::fixed::lemma_div_nn_bound(
                            (self.frequency as int) * (loop_len as int),
                            self.sample_rate as int,
                            68719476736 * (loop_len as int),
                        );
                    }
                    let inc = mul_div_nn(self.frequency, loop_len as i64, self.sample_rate);
                    let np = self.position + inc;
                    self.position = rem_euclid_i64(np, span);
                }
            },
            PlayMode::Release => {
                let release_len = self.release.wavetable.len();
                let release_gain_len = self.release_gain.len();
                if release_len < 2 {
                    self.play_mode = PlayMode::Off;
                } else if self.position < ((release_len - 1) as i64) * FP_ONE {
                    output = sample_linear(&self.release.wavetable, self.position);
                    if release_gain_len > 0 {
                        proof {
                            let span = (release_len as int) * (FP_ONE as int);
                            vstd::arithmetic::mul::lemma_mul_nonnegative(
                                self.position as int,
                                release_gain_len as int,
                            );
                            vstd::arithmetic::mul::lemma_mul_inequality(
                                self.position as int,
                                span,
                                release_gain_len as int,
                            );
                            assert(span * (release_gain_len as int) == ((FP_ONE as int)
                                * (release_gain_len as int)) * (release_len as int))
                                by (nonlinear_arith)
                                requires
                                    span == (release_len as int) * (FP_ONE as int),
                            ;
                            crate::fixed::lemma_div_nn_bound(
                                (self.position as int) * (release_gain_len as int),
                                release_len as int,
                                (FP_ONE as int) * (release_gain_len as int),
                            );
                        }
                        let gp = mul_div_nn(
                            self.position,
                            release_gain_len as i64,
                            release_len as i64,
                        );
                        gain = sample_linear(&self.release_gain, gp);
                    }
                    self.position = self.position + FP_ONE;
                } else {
                    self.play_mode = PlayMode::Off;
                    output = 0;
                }
            },
            PlayMode::Off => {
                output = 0;
            },
        }

        proof {
            lemma_fp_mul_bound(
                self.frequency as int,
                self.ratio as int,
                4503599627370496,
                68719476736,
                4611686018427387904,
            );
            crate::fixed::lemma_div_trunc_nonneg(
                (self.frequency as int) * (self.ratio as int),
                FP_ONE as int,
            );
        }
        let fr = fp_mul(self.frequency, self.ratio);
        proof {
            crate::fixed::lemma_div_nn_le(fr as int, self.sample_rate as int);
            assert((fr as int) * 1 == fr as int) by (nonlinear_arith);
        }
        let inc0 = mul_div_nn(fr, 1, self.sample_rate);
        self.fm_phase = rem_euclid_i64(self.fm_phase + inc0, FP_ONE);

        proof {
            lemma_fp_mul_bound(
                output as int,
                gain as int,
                2 * AMP_LIMIT as int,
                2 * AMP_LIMIT as int,
                4611686018427387904,
            );
        }
        let result = fp_mul(output, gain);
        self.fm_output = result;
        result
    }
}

/// The modulator's contribution in FM mix mode: its own loop table read at
/// its free-running phase, scaled by its level; silent if the loop holds
/// fewer than 2 samples.
pub open spec fn fm_mod_sample_spec(m: OscillatorUnit) -> int {
    let llen = m.loop_section.wavetable.len() as int;
    if llen < 2 {
        0
    } else {
        fp_mul_spec(
            sample_linear_spec(m.loop_section.wavetable@, (m.fm_phase as int) * llen),
            m.level as int,
        )
    }
}

/// The carrier's phase-modulated loop read in FM mix mode, scaled by its
/// level: `modulation` perturbs the carrier's phase before the read.
pub open spec fn fm_carrier_sample_spec(c: OscillatorUnit, modulation: int) -> int {
    let llen = c.loop_section.wavetable.len() as int;
    if llen < 2 {
        0
    } else {
        let ph = (c.fm_phase as int + modulation) % (FP_ONE as int);
        fp_mul_spec(sample_linear_spec(c.loop_section.wavetable@, ph * llen), c.level as int)
    }
}

/// The parameter snapshot the control surface hands to the engine. All
/// fields are Q32. The attack/decay/sustain/release/cutoff/resonance fields
/// are accepted but not yet wired to any behavior (a documented gap).
#[derive(Debug, Clone, Copy, PartialEq, Eq, Structural)]
pub struct ParamBundle {
    pub attack: i64,
    pub decay: i64,
    pub sustain: i64,
    pub release: i64,
    pub blend: i64,
    pub cutoff: i64,
    pub resonance: i64,
    pub osc1_level: i64,
    pub osc2_level: i64,
    pub osc3_level: i64,
    pub osc1_ratio: i64,
    pub osc2_ratio: i64,
    pub osc3_ratio: i64,
    pub fm_index: i64,
    pub mix_mode_f: i64,
}

/// Three oscillator units and the mix rule that combines them. Unit 0 is
/// the FM carrier, unit 1 the FM modulator.
#[derive(Debug, Clone)]
pub struct OscillatorBank {
    pub osc0: OscillatorUnit,
    pub osc1: OscillatorUnit,
    pub osc2: OscillatorUnit,
    pub mix_mode: MixMode,
    /// Mix balance for FM synthesis in [0, 1] as Q32.
    pub fm_mix: i64,
}

impl OscillatorBank {
    /// All three units are within machine limits.
    pub open spec fn well_formed(self) -> bool {
        &&& self.osc0.well_formed()
        &&& self.osc1.well_formed()
        &&& self.osc2.well_formed()
        &&& 0 <= self.fm_mix <= FP_ONE
    }

    /// A fresh bank of three silent units in additive mode.
    pub fn new(sample_rate: i64) -> (r: OscillatorBank)
        requires
            1000 <= sample_rate <= 4294967296,
        ensures
            r.well_formed(),
            r.osc0.is_fresh(sample_rate),
            r.osc1.is_fresh(sample_rate),
            r.osc2.is_fresh(sample_rate),
            r.mix_mode is Add,
            r.fm_mix == FP_HALF,
    {
        OscillatorBank {
            osc0: OscillatorUnit::new(sample_rate),
            osc1: OscillatorUnit::new(sample_rate),
            osc2: OscillatorUnit::new(sample_rate),
            mix_mode: MixMode::Add,
            fm_mix: FP_HALF,
        }
    }
}

/// The bank and the mixed sample after one step. Additive mode steps all
/// three units and averages their level-scaled outputs. FM mode leaves the
/// modulator untouched: while the carrier plays its core or release segment
/// its own gained output passes through unchanged; only in the loop state is
/// its phase perturbed by the modulator's scaled output, and then no unit
/// state advances (this asymmetry is intrinsic to the design).
pub open spec fn bank_step(b: OscillatorBank, active: bool) -> (OscillatorBank, int) {
    match b.mix_mode {
        MixMode::Add => {
            let s0 = unit_step(b.osc0, active).2;
            let s1 = unit_step(b.osc1, active).2;
            let s2 = unit_step(b.osc2, active).2;
            let mixed = div_trunc(
                fp_mul_spec(s0, b.osc0.level as int) + fp_mul_spec(s1, b.osc1.level as int)
                    + fp_mul_spec(s2, b.osc2.level as int),
                3,
            );
            (
                OscillatorBank {
                    osc0: unit_after(b.osc0, active),
                    osc1: unit_after(b.osc1, active),
                    osc2: unit_after(b.osc2, active),
                    mix_mode: b.mix_mode,
                    fm_mix: b.fm_mix,
                },
                mixed,
            )
        },
        MixMode::FM => {
            if b.osc0.play_mode is Core || b.osc0.play_mode is Release {
                (
                    OscillatorBank {
                        osc0: unit_after(b.osc0, active),
                        osc1: b.osc1,
                        osc2: b.osc2,
                        mix_mode: b.mix_mode,
                        fm_mix: b.fm_mix,
                    },
                    unit_step(b.osc0, active).2,
                )
            } else {
                let modulation = fp_mul_spec(
                    fm_mod_sample_spec(b.osc1),
                    b.osc1.modulation_index as int,
                );
                (b, fm_carrier_sample_spec(b.osc0, modulation))
            }
        },
    }
}

impl OscillatorBank {
    /// Generate and mix one sample of the whole bank; the bank afterwards
    /// and the returned sample are exactly `bank_step` of the bank before.
    pub fn process_bank(&mut self, is_active: bool, _env_stage: usize) -> (r: i64)
        requires
            old(self).well_formed(),
        ensures
            final(self).well_formed(),
            *final(self) == bank_step(*old(self), is_active).0,
            r as int == bank_step(*old(self), is_active).1,
            -4611686018427387904 <= r <= 4611686018427387904,
    {
        match self.mix_mode {
            MixMode::Add => {
                let sample1 = self.osc0.generate_sample(is_active, _env_stage);
                let sample2 = self.osc1.generate_sample(is_active, _env_stage);
                let sample3 = self.osc2.generate_sample(is_active, _env_stage);
                proof {
                    lemma_fp_mul_bound(
                        sample1 as int,
                        self.osc0.level as int,
                        4611686018427387904,
                        FP_ONE as int,
                        4611686018427387904,
                    );
                    lemma_fp_mul_bound(
                        sample2 as int,
                        self.osc1.level as int,
                        4611686018427387904,
                        FP_ONE as int,
                        4611686018427387904,
                    );
                    lemma_fp_mul_bound(
                        sample3 as int,
                        self.osc2.level as int,
                        4611686018427387904,
                        FP_ONE as int,
                        4611686018427387904,
                    );
                }
                let a1 = fp_mul(sample1, self.osc0.level);
                let a2 = fp_mul(sample2, self.osc1.level);
                let a3 = fp_mul(sample3, self.osc2.level);
                let total: i128 = a1 as i128 + a2 as i128 + a3 as i128;
                proof {
                    lemma_div_trunc_bound(total as int, 3, 4611686018427387904);
                }
                div_trunc_i128(total, 3)
            },
            MixMode::FM => {
                if self.osc0.play_mode == PlayMode::Core || self.osc0.play_mode
                    == PlayMode::Release {
                    self.osc0.generate_sample(is_active, _env_stage)
                } else {
                    let mod_loop_len = self.osc1.loop_section.wavetable.len();
                    let mod_sample: i64 = if mod_loop_len < 2 {
                        0
                    } else {
                        proof {
                            assert((self.osc1.fm_phase as int) * (mod_loop_len as int)
                                <= 72057594037927936) by (nonlinear_arith)
                                requires
                                    0 <= self.osc1.fm_phase < FP_ONE,
                                    FP_ONE == 4294967296i64,
                                    0 <= mod_loop_len <= MAX_LEN,
                                    MAX_LEN == 16777216usize,
                            ;
                            vstd::arithmetic::mul::lemma_mul_nonnegative(
                                self.osc1.fm_phase as int,
                                mod_loop_len as int,
                            );
                        }
                        let idx: i64 = self.osc1.fm_phase * (mod_loop_len as i64);
                        let o = sample_linear(&self.osc1.loop_section.wavetable, idx);
                        proof {
                            lemma_fp_mul_bound(
                                o as int,
                                self.osc1.level as int,
                                2 * AMP_LIMIT as int,
                                FP_ONE as int,
                                2 * AMP_LIMIT as int,
                            );
                        }
                        fp_mul(o, self.osc1.level)
                    };
                    proof {
                        lemma_fp_mul_bound(
                            mod_sample as int,
                            self.osc1.modulation_index as int,
                            2 * AMP_LIMIT as int,
                            1099511627776,
                            36028797018963968,
                        );
                    }
                    let modulation = fp_mul(mod_sample, self.osc1.modulation_index);
                    let car_loop_len = self.osc0.loop_section.wavetable.len();
                    if car_loop_len < 2 {
                        0
                    } else {
                        let ph = rem_euclid_i64(self.osc0.fm_phase + modulation, FP_ONE);
                        proof {
                            assert((ph as int) * (car_loop_len as int) <= 72057594037927936)
                                by (nonlinear_arith)
                                requires
                                    0 <= ph < FP_ONE,
                                    FP_ONE == 4294967296i64,
                                    0 <= car_loop_len <= MAX_LEN,
                                    MAX_LEN == 16777216usize,
                            ;
                            vstd::arithmetic::mul::lemma_mul_nonnegative(
                                ph as int,
                                car_loop_len as int,
                            );
                        }
                        let idx: i64 = ph * (car_loop_len as i64);
                        let o = sample_linear(&self.osc0.loop_section.wavetable, idx);
                        proof {
                            lemma_fp_mul_bound(
                                o as int,
                                self.osc0.level as int,
                                2 * AMP_LIMIT as int,
                                FP_ONE as int,
                                2 * AMP_LIMIT as int,
                            );
                        }
                        fp_mul(o, self.osc0.level)
                    }
                }
            },
        }
    }

    /// Start a note: tune every unit to `frequency` (Q32 Hz), rewind it and
    /// put it into the core segment with a fresh modulation phase.
    pub fn note_on(&mut self, frequency: i64)
        requires
            old(self).well_formed(),
            0 <= frequency <= 4503599627370496,
            frequency as int <= 68719476736 * (old(self).osc0.sample_rate as int),
            frequency as int <= 68719476736 * (old(self).osc1.sample_rate as int),
            frequency as int <= 68719476736 * (old(self).osc2.sample_rate as int),
        ensures
            final(self).well_formed(),
            final(self).osc0 == (OscillatorUnit {
                frequency,
                position: 0i64,
                play_mode: PlayMode::Core,
                fm_phase: 0i64,
                ..old(self).osc0
            }),
            final(self).osc1 == (OscillatorUnit {
                frequency,
                position: 0i64,
                play_mode: PlayMode::Core,
                fm_phase: 0i64,
                ..old(self).osc1
            }),
            final(self).osc2 == (OscillatorUnit {
                frequency,
                position: 0i64,
                play_mode: PlayMode::Core,
                fm_phase: 0i64,
                ..old(self).osc2
            }),
            final(self).mix_mode == old(self).mix_mode,
            final(self).fm_mix == old(self).fm_mix,
    {
        self.osc0.frequency = frequency;
        self.osc0.position = 0;
        self.osc0.play_mode = PlayMode::Core;
        self.osc0.fm_phase = 0;
        self.osc1.frequency = frequency;
        self.osc1.position = 0;
        self.osc1.play_mode = PlayMode::Core;
        self.osc1.fm_phase = 0;
        self.osc2.frequency = frequency;
        self.osc2.position = 0;
        self.osc2.play_mode = PlayMode::Core;
        self.osc2.fm_phase = 0;
    }

    /// Apply a parameter snapshot: pick the mix mode (below one half means
    /// additive), route the blend to the FM mix balance, and set each
    /// unit's level and ratio and the modulator's modulation depth.
    pub fn apply_params(&mut self, p: &ParamBundle)
        requires
            old(self).well_formed(),
            0 <= p.osc1_level <= FP_ONE,
            0 <= p.osc2_level <= FP_ONE,
            0 <= p.osc3_level <= FP_ONE,
            0 <= p.osc1_ratio <= 68719476736,
            0 <= p.osc2_ratio <= 68719476736,
            0 <= p.osc3_ratio <= 68719476736,
            0 <= p.fm_index <= 1099511627776,
            0 <= p.blend <= FP_ONE,
        ensures
            final(self).well_formed(),
            final(self).mix_mode == (if p.mix_mode_f < FP_HALF {
                MixMode::Add
            } else {
                MixMode::FM
            }),
            final(self).fm_mix == p.blend,
            final(self).osc0 == (OscillatorUnit {
                level: p.osc1_level,
                ratio: p.osc1_ratio,
                ..old(self).osc0
            }),
            final(self).osc1 == (OscillatorUnit {
                level: p.osc2_level,
                ratio: p.osc2_ratio,
                modulation_index: p.fm_index,
                ..old(self).osc1
            }),
            final(self).osc2 == (OscillatorUnit {
                level: p.osc3_level,
                ratio: p.osc3_ratio,
                ..old(self).osc2
            }),
    {
        if p.mix_mode_f < FP_HALF {
            self.mix_mode = MixMode::Add;
        } else {
            self.mix_mode = MixMode::FM;
        }
        self.fm_mix = p.blend;
        self.osc0.level = p.osc1_level;
        self.osc1.level = p.osc2_level;
        self.osc2.level = p.osc3_level;
        self.osc0.ratio = p.osc1_ratio;
        self.osc1.ratio = p.osc2_ratio;
        self.osc2.ratio = p.osc3_ratio;
        self.osc1.modulation_index = p.fm_index;
    }
}

/// The bank after `k` steps with a fixed activation flag.
pub open spec fn bank_iter(b: OscillatorBank, active: bool, k: int) -> OscillatorBank
    decreases k,
{
    if k <= 0 {
        b
    } else {
        bank_step(bank_iter(b, active, k - 1), active).0
    }
}

/// The sample the bank mixes at step `k`.
pub open spec fn bank_out_at(b: OscillatorBank, active: bool, k: int) -> int {
    bank_step(bank_iter(b, active, k), active).1
}

impl OscillatorBank {
    /// Render a block of `num_samples` mixed samples, each scaled by `amp`;
    /// sample `i` is exactly the bank's step-`i` output times `amp`.
    pub fn render_block(&mut self, is_active: bool, amp: i64, num_samples: usize) -> (out: Vec<
        i64,
    >)
        requires
            old(self).well_formed(),
            0 <= amp <= FP_ONE,
            num_samples <= MAX_LEN,
        ensures
            final(self).well_formed(),
            *final(self) == bank_iter(*old(self), is_active, num_samples as int),
            out.len() == num_samples,
            forall|i: int|
                0 <= i < num_samples ==> out@[i] as int == fp_mul_spec(
                    bank_out_at(*old(self), is_active, i),
                    amp as int,
                ),
    {
        let mut out: Vec<i64> = Vec::new();
        let mut i: usize = 0;
        while i < num_samples
            invariant
                self.well_formed(),
                *self == bank_iter(*old(self), is_active, i as int),
                i <= num_samples <= MAX_LEN,
                0 <= amp <= FP_ONE,
                out.len() == i,
                forall|j: int|
                    0 <= j < i ==> out@[j] as int == fp_mul_spec(
                        bank_out_at(*old(self), is_active, j),
                        amp as int,
                    ),
            decreases num_samples - i,
        {
            let s = self.process_bank(is_active, 0);
            proof {
                lemma_fp_mul_bound(
                    s as int,
                    amp as int,
                    4611686018427387904,
                    FP_ONE as int,
                    4611686018427387904,
                );
            }
            let v = fp_mul(s, amp);
            out.push(v);
            i = i + 1;
        }
        out
    }
}

/// In additive mode the mixed sample is exactly the sum of the three
/// units' level-scaled outputs divided by three.
pub proof fn lemma_additive_mix_formula(b: OscillatorBank, active: bool)
    requires
        b.mix_mode is Add,
    ensures
        bank_step(b, active).1 == div_trunc(
            fp_mul_spec(unit_step(b.osc0, active).2, b.osc0.level as int) + fp_mul_spec(
                unit_step(b.osc1, active).2,
                b.osc1.level as int,
            ) + fp_mul_spec(unit_step(b.osc2, active).2, b.osc2.level as int),
            3,
        ),
{
}

/// A silent unit starts its core segment on the first active call.
pub proof fn lemma_off_starts_core(u: OscillatorUnit)
    requires
        u.well_formed(),
        u.play_mode is Off,
        u.core.wavetable.len() >= 2,
    ensures
        unit_step(u, true).0 is Core,
        unit_step(u, true).1 == FP_ONE as int,
{
    assert(((u.core.wavetable.len() as int) - 1) * (FP_ONE as int) >= FP_ONE as int)
        by (nonlinear_arith)
        requires
            u.core.wavetable.len() >= 2,
    ;
}

/// With a core shorter than 2 samples, the first active call falls through
/// to the loop at once.
pub proof fn lemma_off_starts_short_core(u: OscillatorUnit)
    requires
        u.well_formed(),
        u.play_mode is Off,
        u.core.wavetable.len() < 2,
    ensures
        unit_step(u, true).0 is Loop,
{
}

/// A playing core falls through to the loop once the position has reached
/// the end of the segment (or at once when the core is shorter than 2).
pub proof fn lemma_core_to_loop(u: OscillatorUnit)
    requires
        u.well_formed(),
        u.play_mode is Core,
        u.core.wavetable.len() < 2 || u.position as int >= ((u.core.wavetable.len() as int) - 1)
            * (FP_ONE as int),
    ensures
        unit_step(u, true).0 is Loop,
        unit_step(u, true).1 == 0,
{
}

/// A loop shorter than 2 samples turns the voice off.
pub proof fn lemma_short_loop_to_off(u: OscillatorUnit)
    requires
        u.well_formed(),
        u.play_mode is Loop,
        u.loop_section.wavetable.len() < 2,
    ensures
        unit_step(u, true).0 is Off,
{
}

/// A release ends the voice at the segment end, or at once when the
/// release is shorter than 2 samples; this holds whether or not the voice
/// is still held.
pub proof fn lemma_release_to_off(u: OscillatorUnit, active: bool)
    requires
        u.well_formed(),
        u.play_mode is Release,
        u.release.wavetable.len() < 2 || u.position as int >= ((u.release.wavetable.len() as int)
            - 1) * (FP_ONE as int),
    ensures
        unit_step(u, active).0 is Off,
{
}

} // verus!
