//! The preprocessor: loudness normalization toward a target RMS, one-pole
//! DC removal, and the per-bin decisions of the spectral noise gate.
//!
//! The two time-domain stages are wholly verified here. The spectral gate
//! works on short-time transform frames: the caller supplies the frame
//! magnitudes (and later the inverse-transformed frames), and this module
//! makes every decision — which frame defines the noise floor, which bins
//! are gated, and how the overlap-add is renormalized.

use vstd::prelude::*;
use crate::fixed::FP_ONE;
use crate::fixed::AMP_LIMIT;
use crate::fixed::MAX_LEN;
use crate::fixed::bounded;
use crate::fixed::div_trunc;
use crate::fixed::fp_mul_spec;
use crate::fixed::fp_div_spec;
use crate::fixed::ints;
use crate::fixed::sum_sq;
use crate::fixed::sqrt_floor;
use crate::fixed::fp_mul;
use crate::fixed::fp_div;
use crate::fixed::isqrt;
use crate::fixed::lemma_sum_sq_push;
use crate::fixed::lemma_fp_mul_bound;
use crate::fixed::lemma_div_nn_bound;
use crate::types::AnalyzerError;

verus! {

/// The default loudness target of the pipeline: an RMS of -10 dBFS
/// (10^(-10/20) ≈ 0.3162) in Q32.
pub const DEFAULT_TARGET_RMS: i64 = 1358187913;

/// The default DC-removal feedback: 0.995 in Q32.
pub const DEFAULT_DC_ALPHA: i64 = 4273492459;

/// Largest accepted DC-removal feedback, 511/512 of one: keeps the
/// one-pole accumulator below `DC_OUT_LIMIT`.
pub const MAX_DC_ALPHA: i64 = 4286578688;

/// Bound on the DC-removal output (2^56; an amplitude of 2^24).
pub const DC_OUT_LIMIT: i64 = 72057594037927936;

/// An RMS below this (about 1e-6 in Q32) counts as near-silence, which
/// normalization leaves untouched.
pub const RMS_EPS: i64 = 4295;

/// The RMS (rounded down) of a Q32 signal: the square root of the mean of
/// the squared samples.
pub open spec fn rms_spec(s: Seq<i64>) -> int {
    sqrt_floor(sum_sq(ints(s)) / (s.len() as int))
}

/// The Q32 gain normalization applies: target RMS over measured RMS.
pub open spec fn norm_gain_spec(s: Seq<i64>, target: int) -> int {
    fp_div_spec(target, rms_spec(s))
}

/// The normalized signal stays within the amplitude limit. This is a
/// machine-size condition on the input: it holds of every signal whose
/// scaled peak fits an amplitude of 16384, so of any real recording.
pub open spec fn scale_ok(s: Seq<i64>, target: int) -> bool {
    ||| s.len() == 0
    ||| rms_spec(s) < RMS_EPS as int
    ||| forall|i: int|
        0 <= i < s.len() ==> -(AMP_LIMIT as int) <= #[trigger] fp_mul_spec(
            s[i] as int,
            norm_gain_spec(s, target),
        ) <= AMP_LIMIT as int
}

/// The elements of the normalized signal, as integers.
pub open spec fn normed_ints(s: Seq<i64>, target: int) -> Seq<int> {
    Seq::new(
        s.len(),
        |i: int|
            if rms_spec(s) < RMS_EPS as int {
                s[i] as int
            } else {
                fp_mul_spec(s[i] as int, norm_gain_spec(s, target))
            },
    )
}

/// The one-pole DC-removal output at index `n`:
/// y[n] = x[n] - x[n-1] + alpha·y[n-1].
pub open spec fn dc_y(x: Seq<int>, alpha: int, n: int) -> int
    decreases n,
{
    if n <= 0 {
        if n == 0 {
            x[0]
        } else {
            0
        }
    } else {
        x[n] - x[n - 1] + fp_mul_spec(alpha, dc_y(x, alpha, n - 1))
    }
}

/// Measure the RMS of a nonempty bounded signal, rounded down.
pub fn measure_rms(audio: &Vec<i64>) -> (r: i64)
    requires
        0 < audio.len() <= MAX_LEN,
        bounded(audio@, AMP_LIMIT as int),
    ensures
        r as int == rms_spec(audio@),
        0 <= r <= AMP_LIMIT,
{
    let ghost s = ints(audio@);
    let n = audio.len();
    let mut acc: i128 = 0;
    let mut i: usize = 0;
    while i < n
        invariant
            i <= n == audio.len() <= MAX_LEN,
            bounded(audio@, AMP_LIMIT as int),
            s == ints(audio@),
            acc as int == sum_sq(s.subrange(0, i as int)),
            0 <= acc as int <= (i as int) * ((AMP_LIMIT as int) * (AMP_LIMIT as int)),
        decreases n - i,
    {
        let x = audio[i];
        proof {
            lemma_sum_sq_push(s, i as int);
            assert(s[i as int] == audio@[i as int] as int);
            assert(0 <= (x as int) * (x as int) <= (AMP_LIMIT as int) * (AMP_LIMIT as int))
                by (nonlinear_arith)
                requires
                    -AMP_LIMIT <= x <= AMP_LIMIT,
            ;
            assert(((i + 1) as int) * ((AMP_LIMIT as int) * (AMP_LIMIT as int)) == (i as int)
                * ((AMP_LIMIT as int) * (AMP_LIMIT as int)) + (AMP_LIMIT as int) * (AMP_LIMIT
                as int)) by (nonlinear_arith);
        }
        acc = acc + (x as i128) * (x as i128);
        i = i + 1;
    }
    proof {
        assert(s.subrange(0, n as int) =~= s);
    }
    proof {
        assert((acc as int) <= ((AMP_LIMIT as int) * (AMP_LIMIT as int)) * (n as int))
            by (nonlinear_arith)
            requires
                acc as int <= (n as int) * ((AMP_LIMIT as int) * (AMP_LIMIT as int)),
        ;
        lemma_div_nn_bound(acc as int, n as int, (AMP_LIMIT as int) * (AMP_LIMIT as int));
    }
    let mean: u128 = (acc as u128) / (n as u128);
    let r64 = isqrt(mean);
    proof {
        assert(mean as int == sum_sq(s) / (audio@.len() as int));
        assert(r64 as int <= AMP_LIMIT as int) by (nonlinear_arith)
            requires
                (r64 as int) * (r64 as int) <= mean as int,
                mean as int <= (AMP_LIMIT as int) * (AMP_LIMIT as int),
                r64 >= 0,
        ;
    }
    r64 as i64
}

/// Scale the signal so its RMS becomes `target_rms`, exactly as Q32
/// arithmetic: each sample is multiplied by target/measured. A signal whose
/// measured RMS is below `RMS_EPS` (near-silence) is returned unchanged, as
/// is an empty one.
pub fn normalize(audio: &Vec<i64>, target_rms: i64) -> (out: Vec<i64>)
    requires
        audio.len() <= MAX_LEN,
        bounded(audio@, AMP_LIMIT as int),
        0 < target_rms <= FP_ONE,
        scale_ok(audio@, target_rms as int),
    ensures
        out.len() == audio.len(),
        bounded(out@, AMP_LIMIT as int),
        audio.len() == 0 || rms_spec(audio@) < RMS_EPS as int ==> out@ == audio@,
        audio.len() > 0 && rms_spec(audio@) >= RMS_EPS as int ==> forall|i: int|
            0 <= i < audio@.len() ==> out@[i] as int == fp_mul_spec(
                audio@[i] as int,
                norm_gain_spec(audio@, target_rms as int),
            ),
{
    let n = audio.len();
    if n == 0 {
        let out: Vec<i64> = Vec::new();
        proof {
            assert(out@ =~= audio@);
        }
        return out;
    }
    let rms = measure_rms(audio);
    if rms < RMS_EPS {
        let mut out: Vec<i64> = Vec::new();
        let mut i: usize = 0;
        while i < n
            invariant
                i <= n == audio.len(),
                out@ =~= audio@.subrange(0, i as int),
            decreases n - i,
        {
            out.push(audio[i]);
            i = i + 1;
        }
        proof {
            assert(out@ =~= audio@);
        }
        return out;
    }
    proof {
        lemma_div_nn_bound(
            (target_rms as int) * (FP_ONE as int),
            rms as int,
            4503599627370496,
        );
    }
    let gain = fp_div(target_rms, rms);
    let mut out: Vec<i64> = Vec::new();
    let mut i: usize = 0;
    while i < n
        invariant
            i <= n == audio.len() <= MAX_LEN,
            bounded(audio@, AMP_LIMIT as int),
            rms_spec(audio@) >= RMS_EPS as int,
            scale_ok(audio@, target_rms as int),
            audio.len() > 0,
            gain as int == norm_gain_spec(audio@, target_rms as int),
            out.len() == i,
            forall|j: int|
                0 <= j < i ==> out@[j] as int == fp_mul_spec(audio@[j] as int, gain as int),
            bounded(out@, AMP_LIMIT as int),
        decreases n - i,
    {
        out.push(fp_mul(audio[i], gain));
        i = i + 1;
    }
    out
}

/// Remove DC bias with a one-pole filter: y[n] = x[n] - x[n-1] + alpha·y[n-1].
/// The feedback cap keeps the accumulator below `DC_OUT_LIMIT`.
pub fn dc_remove(audio: &Vec<i64>, alpha: i64) -> (out: Vec<i64>)
    requires
        audio.len() <= MAX_LEN,
        bounded(audio@, AMP_LIMIT as int),
        0 <= alpha <= MAX_DC_ALPHA,
    ensures
        out.len() == audio.len(),
        forall|i: int|
            0 <= i < audio@.len() ==> out@[i] as int == dc_y(ints(audio@), alpha as int, i),
        bounded(out@, DC_OUT_LIMIT as int),
{
    let ghost s = ints(audio@);
    let n = audio.len();
    let mut out: Vec<i64> = Vec::new();
    let mut prev_x: i64 = 0;
    let mut prev_y: i64 = 0;
    let mut i: usize = 0;
    while i < n
        invariant
            i <= n == audio.len() <= MAX_LEN,
            bounded(audio@, AMP_LIMIT as int),
            0 <= alpha <= MAX_DC_ALPHA,
            s == ints(audio@),
            out.len() == i,
            forall|j: int| 0 <= j < i ==> out@[j] as int == dc_y(s, alpha as int, j),
            bounded(out@, DC_OUT_LIMIT as int),
            prev_x as int == (if i == 0 {
                0int
            } else {
                audio@[i as int - 1] as int
            }),
            prev_y as int == (if i == 0 {
                0int
            } else {
                dc_y(s, alpha as int, i as int - 1)
            }),
            -DC_OUT_LIMIT <= prev_y <= DC_OUT_LIMIT,
        decreases n - i,
    {
        proof {
            lemma_fp_mul_bound(
                alpha as int,
                prev_y as int,
                MAX_DC_ALPHA as int,
                DC_OUT_LIMIT as int,
                71916856549572608,
            );
        }
        let t = fp_mul(alpha, prev_y);
        let x = audio[i];
        let y = x - prev_x + t;
        proof {
            assert(s[i as int] == audio@[i as int] as int);
            if i > 0 {
                assert(s[i as int - 1] == audio@[i as int - 1] as int);
            }
        }
        out.push(y);
        prev_x = x;
        prev_y = y;
        i = i + 1;
    }
    out
}

/// The whole time-domain preprocessing: reject empty input, normalize the
/// loudness to `DEFAULT_TARGET_RMS`, then remove DC bias with the default
/// feedback. The spectral noise gate then runs on the caller's short-time
/// transform of this result, through `gate_mask` and `overlap_add`.
pub fn apply_all_preprocessing(audio: &Vec<i64>) -> (r: Result<Vec<i64>, AnalyzerError>)
    requires
        audio.len() <= MAX_LEN,
        bounded(audio@, AMP_LIMIT as int),
        scale_ok(audio@, DEFAULT_TARGET_RMS as int),
    ensures
        audio.len() == 0 <==> r is Err,
        audio.len() == 0 ==> r == Err::<Vec<i64>, AnalyzerError>(AnalyzerError::InputError),
        r matches Ok(v) ==> {
            &&& v.len() == audio.len()
            &&& bounded(v@, DC_OUT_LIMIT as int)
            &&& forall|i: int|
                0 <= i < v@.len() ==> v@[i] as int == dc_y(
                    normed_ints(audio@, DEFAULT_TARGET_RMS as int),
                    DEFAULT_DC_ALPHA as int,
                    i,
                )
        },
{
    if audio.len() == 0 {
        return Err(AnalyzerError::InputError);
    }
    let normalized = normalize(audio, DEFAULT_TARGET_RMS);
    proof {
        assert(ints(normalized@) =~= normed_ints(audio@, DEFAULT_TARGET_RMS as int));
    }
    let dc_removed = dc_remove(&normalized, DEFAULT_DC_ALPHA);
    Ok(dc_removed)
}

/// Transform size of the spectral gate.
pub const GATE_FFT_SIZE: usize = 1024;

/// Hop between gate frames.
pub const GATE_HOP_SIZE: usize = 256;

/// Number of distinct bins of a real spectrum (up to the mirror point).
pub const GATE_BINS: usize = 513;

/// An accumulated squared window below this (about 1e-6 in Q32) skips the
/// overlap-add renormalization of that sample.
pub const WINDOW_EPS: i64 = 4295;

/// Largest number of gate frames (what `MAX_LEN` samples can yield).
pub const GATE_MAX_FRAMES: usize = 65536;

/// Total spectral power of one frame of bin magnitudes.
pub open spec fn frame_power(m: Seq<i64>) -> int {
    sum_sq(ints(m))
}

/// Index of the frame with least total power among the first `k` frames
/// (ties keep the earliest).
pub open spec fn quietest_frame(mags: Seq<Seq<i64>>, k: int) -> int
    decreases k,
{
    if k <= 1 {
        0
    } else {
        let b = quietest_frame(mags, k - 1);
        if frame_power(mags[k - 1]) < frame_power(mags[b]) {
            k - 1
        } else {
            b
        }
    }
}

/// The views of a sequence of vectors.
pub open spec fn views(frames: Seq<Vec<i64>>) -> Seq<Seq<i64>> {
    frames.map_values(|v: Vec<i64>| v@)
}

/// Whether the noise gate silences bin `i` of frame `f`: its magnitude is below
/// 1.5 times the noise floor that the quietest frame defines.
pub open spec fn gate_decision(mags: Seq<Vec<i64>>, f: int, i: int) -> bool {
    2 * (mags[f]@[i] as int) < 3 * (mags[quietest_frame(views(mags), mags.len() as int)]@[i] as int)
}

/// Total spectral power of one frame, as an `i128`.
fn frame_power_exec(m: &Vec<i64>) -> (p: i128)
    requires
        m.len() <= MAX_LEN,
        bounded(m@, AMP_LIMIT as int),
    ensures
        p as int == frame_power(m@),
        0 <= p,
{
    let ghost s = ints(m@);
    let n = m.len();
    let mut acc: i128 = 0;
    let mut i: usize = 0;
    while i < n
        invariant
            i <= n == m.len() <= MAX_LEN,
            bounded(m@, AMP_LIMIT as int),
            s == ints(m@),
            acc as int == sum_sq(s.subrange(0, i as int)),
            0 <= acc as int <= (i as int) * ((AMP_LIMIT as int) * (AMP_LIMIT as int)),
        decreases n - i,
    {
        let x = m[i];
        proof {
            lemma_sum_sq_push(s, i as int);
            assert(s[i as int] == m@[i as int] as int);
            assert(0 <= (x as int) * (x as int) <= (AMP_LIMIT as int) * (AMP_LIMIT as int))
                by (nonlinear_arith)
                requires
                    -AMP_LIMIT <= x <= AMP_LIMIT,
            ;
            assert(((i + 1) as int) * ((AMP_LIMIT as int) * (AMP_LIMIT as int)) == (i as int)
                * ((AMP_LIMIT as int) * (AMP_LIMIT as int)) + (AMP_LIMIT as int) * (AMP_LIMIT
                as int)) by (nonlinear_arith);
        }
        acc = acc + (x as i128) * (x as i128);
        i = i + 1;
    }
    proof {
        assert(s.subrange(0, n as int) =~= s);
    }
    acc
}

/// Decide which bins the spectral gate silences. The frame with least total
/// power defines a per-bin noise floor; a bin is gated exactly when its
/// magnitude is below 1.5 times that floor (compared as 2·mag < 3·floor, so
/// the decision is exact). Only the first `GATE_BINS` bins of each frame are
/// gated; the mirror bins stay untouched, as the design has it.
pub fn gate_mask(mags: &Vec<Vec<i64>>) -> (mask: Vec<Vec<bool>>)
    requires
        mags.len() <= MAX_LEN,
        forall|f: int| 0 <= f < mags@.len() ==> (#[trigger] mags@[f]).len() == GATE_FFT_SIZE,
        forall|f: int|
            0 <= f < mags@.len() ==> bounded(#[trigger] mags@[f]@, AMP_LIMIT as int),
        forall|f: int, i: int|
            0 <= f < mags@.len() && 0 <= i < GATE_FFT_SIZE ==> 0 <= #[trigger] mags@[f]@[i],
    ensures
        mask.len() == mags.len(),
        forall|f: int| 0 <= f < mask@.len() ==> (#[trigger] mask@[f]).len() == GATE_BINS,
        forall|f: int, i: int|
            0 <= f < mask@.len() && 0 <= i < GATE_BINS ==> #[trigger] mask@[f]@[i]
                == gate_decision(mags@, f, i),
{
    let n = mags.len();
    let mut mask: Vec<Vec<bool>> = Vec::new();
    if n == 0 {
        return mask;
    }
    let mut best: usize = 0;
    let mut best_power: i128 = frame_power_exec(&mags[0]);
    let mut f: usize = 1;
    while f < n
        invariant
            1 <= f <= n == mags.len() <= MAX_LEN,
            forall|g: int| 0 <= g < mags@.len() ==> (#[trigger] mags@[g]).len() == GATE_FFT_SIZE,
            forall|g: int|
                0 <= g < mags@.len() ==> bounded(#[trigger] mags@[g]@, AMP_LIMIT as int),
            best < f,
            best as int == quietest_frame(views(mags@), f as int),
            best_power as int == frame_power(mags@[best as int]@),
        decreases n - f,
    {
        let p = frame_power_exec(&mags[f]);
        proof {
            assert(views(mags@)[f as int] == mags@[f as int]@);
            assert(views(mags@)[quietest_frame(views(mags@), f as int)] == mags@[quietest_frame(
                views(mags@),
                f as int,
            )]@);
        }
        if p < best_power {
            best = f;
            best_power = p;
        }
        f = f + 1;
    }
    let ghost qf = quietest_frame(views(mags@), mags@.len() as int);
    let mut fi: usize = 0;
    while fi < n
        invariant
            fi <= n == mags.len(),
            forall|g: int| 0 <= g < mags@.len() ==> (#[trigger] mags@[g]).len() == GATE_FFT_SIZE,
            best < n,
            best as int == qf,
            qf == quietest_frame(views(mags@), mags@.len() as int),
            mask.len() == fi,
            forall|g: int| 0 <= g < fi ==> (#[trigger] mask@[g]).len() == GATE_BINS,
            forall|g: int, i: int|
                0 <= g < fi && 0 <= i < GATE_BINS ==> #[trigger] mask@[g]@[i] == (2 * (
                mags@[g]@[i] as int) < 3 * (mags@[qf]@[i] as int)),
        decreases n - fi,
    {
        let mut row: Vec<bool> = Vec::new();
        let mut i: usize = 0;
        while i < GATE_BINS
            invariant
                i <= GATE_BINS,
                fi < n == mags.len(),
                forall|g: int|
                    0 <= g < mags@.len() ==> (#[trigger] mags@[g]).len() == GATE_FFT_SIZE,
                best < n,
                best as int == qf,
                row.len() == i,
                forall|j: int|
                    0 <= j < i ==> #[trigger] row@[j] == (2 * (mags@[fi as int]@[j] as int) < 3
                        * (mags@[qf]@[j] as int)),
            decreases GATE_BINS - i,
        {
            let mag: i64 = mags[fi][i];
            let floor: i64 = mags[best][i];
            row.push(2 * (mag as i128) < 3 * (floor as i128));
            i = i + 1;
        }
        mask.push(row);
        fi = fi + 1;
    }
    mask
}

/// Contribution of frame `f` to output sample `n` of the overlap-add: its
/// windowed sample, where the frame covers `n`.
pub open spec fn ola_term(frames: Seq<Seq<i64>>, window: Seq<i64>, f: int, n: int) -> int {
    let start = f * (GATE_HOP_SIZE as int);
    if start <= n < start + (GATE_FFT_SIZE as int) {
        fp_mul_spec(frames[f][n - start] as int, window[n - start] as int)
    } else {
        0
    }
}

/// Sum of the first `k` frames' contributions at output sample `n`.
pub open spec fn ola_num(frames: Seq<Seq<i64>>, window: Seq<i64>, k: int, n: int) -> int
    decreases k,
{
    if k <= 0 {
        0
    } else {
        ola_num(frames, window, k - 1, n) + ola_term(frames, window, k - 1, n)
    }
}

/// Squared-window weight of frame `f` at output sample `n`.
pub open spec fn ola_wterm(window: Seq<i64>, f: int, n: int) -> int {
    let start = f * (GATE_HOP_SIZE as int);
    if start <= n < start + (GATE_FFT_SIZE as int) {
        fp_mul_spec(window[n - start] as int, window[n - start] as int)
    } else {
        0
    }
}

/// Accumulated squared window over the first `k` frames at sample `n`.
pub open spec fn ola_den(window: Seq<i64>, k: int, n: int) -> int
    decreases k,
{
    if k <= 0 {
        0
    } else {
        ola_den(window, k - 1, n) + ola_wterm(window, k - 1, n)
    }
}

/// One output sample of the overlap-add: the accumulated windowed samples,
/// renormalized by the accumulated squared window where that exceeds
/// `WINDOW_EPS`, and clamped into the amplitude limit (the clamp guards the
/// machine word; a gated spectrum of a bounded signal never reaches it).
pub open spec fn ola_out(frames: Seq<Seq<i64>>, window: Seq<i64>, n: int) -> int {
    let num = ola_num(frames, window, frames.len() as int, n);
    let den = ola_den(window, frames.len() as int, n);
    let raw = if den > WINDOW_EPS as int {
        div_trunc(num * (FP_ONE as int), den)
    } else {
        num
    };
    crate::fixed::clamp_spec(raw, -(AMP_LIMIT as int), AMP_LIMIT as int)
}

/// A windowed contribution stays within the amplitude limit, and a squared
/// window weight within one.
proof fn lemma_ola_terms_bounded(frames: Seq<Seq<i64>>, window: Seq<i64>, f: int, n: int)
    requires
        0 <= f < frames.len(),
        frames[f].len() == GATE_FFT_SIZE,
        window.len() == GATE_FFT_SIZE,
        bounded(frames[f], AMP_LIMIT as int),
        forall|i: int| 0 <= i < window.len() ==> 0 <= #[trigger] window[i] <= FP_ONE,
    ensures
        -(AMP_LIMIT as int) <= ola_term(frames, window, f, n) <= AMP_LIMIT as int,
        0 <= ola_wterm(window, f, n) <= FP_ONE as int,
{
    let start = f * (GATE_HOP_SIZE as int);
    if start <= n < start + (GATE_FFT_SIZE as int) {
        lemma_fp_mul_bound(
            frames[f][n - start] as int,
            window[n - start] as int,
            AMP_LIMIT as int,
            FP_ONE as int,
            AMP_LIMIT as int,
        );
        lemma_fp_mul_bound(
            window[n - start] as int,
            window[n - start] as int,
            FP_ONE as int,
            FP_ONE as int,
            FP_ONE as int,
        );
    }
}

/// Rebuild the gated signal from inverse-transformed frames: accumulate each
/// frame's windowed samples at its hop offset, accumulate the squared
/// window, and renormalize each sample by its accumulated weight.
pub fn overlap_add(frames: &Vec<Vec<i64>>, window: &Vec<i64>, out_len: usize) -> (out: Vec<i64>)
    requires
        frames.len() <= GATE_MAX_FRAMES,
        forall|f: int| 0 <= f < frames@.len() ==> (#[trigger] frames@[f]).len() == GATE_FFT_SIZE,
        forall|f: int|
            0 <= f < frames@.len() ==> bounded(#[trigger] frames@[f]@, AMP_LIMIT as int),
        window.len() == GATE_FFT_SIZE,
        forall|i: int| 0 <= i < window@.len() ==> 0 <= #[trigger] window@[i] <= FP_ONE,
        out_len <= MAX_LEN,
    ensures
        out.len() == out_len,
        forall|n: int|
            0 <= n < out_len ==> out@[n] as int == ola_out(views(frames@), window@, n),
        bounded(out@, AMP_LIMIT as int),
{
    let ghost gf = views(frames@);
    let ghost gw = window@;
    let nframes = frames.len();
    let mut num: Vec<i128> = Vec::new();
    let mut den: Vec<i64> = Vec::new();
    let mut z: usize = 0;
    while z < out_len
        invariant
            z <= out_len,
            num.len() == z,
            den.len() == z,
            forall|n: int| 0 <= n < z ==> #[trigger] num@[n] == 0,
            forall|n: int| 0 <= n < z ==> #[trigger] den@[n] == 0,
        decreases out_len - z,
    {
        num.push(0);
        den.push(0);
        z = z + 1;
    }
    let mut f: usize = 0;
    while f < nframes
        invariant
            f <= nframes == frames.len() <= GATE_MAX_FRAMES,
            gf == views(frames@),
            gw == window@,
            forall|g: int|
                0 <= g < frames@.len() ==> (#[trigger] frames@[g]).len() == GATE_FFT_SIZE,
            forall|g: int|
                0 <= g < frames@.len() ==> bounded(#[trigger] frames@[g]@, AMP_LIMIT as int),
            window.len() == GATE_FFT_SIZE,
            forall|i: int| 0 <= i < window@.len() ==> 0 <= #[trigger] window@[i] <= FP_ONE,
            out_len <= MAX_LEN,
            num.len() == out_len,
            den.len() == out_len,
            forall|n: int| 0 <= n < out_len ==> #[trigger] num@[n] as int == ola_num(
                gf,
                gw,
                f as int,
                n,
            ),
            forall|n: int| 0 <= n < out_len ==> #[trigger] den@[n] as int == ola_den(
                gw,
                f as int,
                n,
            ),
            forall|n: int|
                0 <= n < out_len ==> 0 <= #[trigger] den@[n] as int <= (f as int) * (FP_ONE
                as int),
            forall|n: int|
                0 <= n < out_len ==> -((f as int) * (AMP_LIMIT as int)) <= #[trigger] num@[n]
                    as int <= (f as int) * (AMP_LIMIT as int),
        decreases nframes - f,
    {
        let start = f * GATE_HOP_SIZE;
        proof {
            assert forall|n: int|
                0 <= n < out_len implies 0 <= #[trigger] ola_den(gw, f as int, n) <= (f as int)
                * (FP_ONE as int) by {
                assert(den@[n] as int == ola_den(gw, f as int, n));
                assert(0 <= den@[n] as int <= (f as int) * (FP_ONE as int));
            }
            assert forall|n: int|
                0 <= n < out_len implies -((f as int) * (AMP_LIMIT as int))
                <= #[trigger] ola_num(gf, gw, f as int, n) <= (f as int) * (AMP_LIMIT
                as int) by {
                assert(num@[n] as int == ola_num(gf, gw, f as int, n));
            }
        }
        let mut j: usize = 0;
        while j < GATE_FFT_SIZE
            invariant
                j <= GATE_FFT_SIZE,
                f < nframes == frames.len() <= GATE_MAX_FRAMES,
                start == f * GATE_HOP_SIZE,
                forall|n: int|
                    0 <= n < out_len ==> 0 <= #[trigger] ola_den(gw, f as int, n) <= (f as int)
                        * (FP_ONE as int),
                forall|n: int|
                    0 <= n < out_len ==> -((f as int) * (AMP_LIMIT as int))
                        <= #[trigger] ola_num(gf, gw, f as int, n) <= (f as int) * (AMP_LIMIT
                    as int),
                gf == views(frames@),
                gw == window@,
                forall|g: int|
                    0 <= g < frames@.len() ==> (#[trigger] frames@[g]).len() == GATE_FFT_SIZE,
                forall|g: int|
                    0 <= g < frames@.len() ==> bounded(#[trigger] frames@[g]@, AMP_LIMIT as int),
                window.len() == GATE_FFT_SIZE,
                forall|i: int| 0 <= i < window@.len() ==> 0 <= #[trigger] window@[i] <= FP_ONE,
                out_len <= MAX_LEN,
                num.len() == out_len,
                den.len() == out_len,
                forall|n: int| 0 <= n < out_len ==> #[trigger] num@[n] as int == ola_num(
                    gf,
                    gw,
                    f as int,
                    n,
                ) + (if start <= n < start + j {
                    ola_term(gf, gw, f as int, n)
                } else {
                    0int
                }),
                forall|n: int| 0 <= n < out_len ==> #[trigger] den@[n] as int == ola_den(
                    gw,
                    f as int,
                    n,
                ) + (if start <= n < start + j {
                    ola_wterm(gw, f as int, n)
                } else {
                    0int
                }),
                forall|n: int|
                    0 <= n < out_len ==> 0 <= #[trigger] den@[n] as int <= ((f + 1) as int) * (
                    FP_ONE as int),
                forall|n: int|
                    0 <= n < out_len ==> -(((f + 1) as int) * (AMP_LIMIT as int))
                        <= #[trigger] num@[n] as int <= ((f + 1) as int) * (AMP_LIMIT as int),
            decreases GATE_FFT_SIZE - j,
        {
            let idx = start + j;
            if idx < out_len {
                proof {
                    lemma_ola_terms_bounded(gf, gw, f as int, idx as int);
                    assert(gf[f as int] == frames@[f as int]@);
                    lemma_fp_mul_bound(
                        frames@[f as int]@[j as int] as int,
                        window@[j as int] as int,
                        AMP_LIMIT as int,
                        FP_ONE as int,
                        AMP_LIMIT as int,
                    );
                    lemma_fp_mul_bound(
                        window@[j as int] as int,
                        window@[j as int] as int,
                        FP_ONE as int,
                        FP_ONE as int,
                        FP_ONE as int,
                    );
                }
                let c = fp_mul(frames[f][j], window[j]);
                let w2 = fp_mul(window[j], window[j]);
                let nv = num[idx] + (c as i128);
                num[idx] = nv;
                let dv = den[idx] + w2;
                den[idx] = dv;
            }
            j = j + 1;
        }
        proof {
            assert(forall|n: int|
                0 <= n < out_len ==> #[trigger] num@[n] as int == ola_num(
                    gf,
                    gw,
                    f as int + 1,
                    n,
                ));
            assert(forall|n: int|
                0 <= n < out_len ==> #[trigger] den@[n] as int == ola_den(gw, f as int + 1, n));
        }
        f = f + 1;
    }
    let mut out: Vec<i64> = Vec::new();
    let mut n: usize = 0;
    while n < out_len
        invariant
            n <= out_len,
            num.len() == out_len,
            den.len() == out_len,
            nframes == frames.len(),
            gf == views(frames@),
            gw == window@,
            gf.len() == nframes,
            forall|m: int| 0 <= m < out_len ==> #[trigger] num@[m] as int == ola_num(
                gf,
                gw,
                nframes as int,
                m,
            ),
            forall|m: int| 0 <= m < out_len ==> #[trigger] den@[m] as int == ola_den(
                gw,
                nframes as int,
                m,
            ),
            forall|m: int| 0 <= m < out_len ==> 0 <= #[trigger] den@[m],
            forall|m: int|
                0 <= m < out_len ==> -((nframes as int) * (AMP_LIMIT as int))
                    <= #[trigger] num@[m] as int <= (nframes as int) * (AMP_LIMIT as int),
            nframes <= GATE_MAX_FRAMES,
            out.len() == n,
            forall|m: int| 0 <= m < n ==> #[trigger] out@[m] as int == ola_out(gf, gw, m),
            bounded(out@, AMP_LIMIT as int),
        decreases out_len - n,
    {
        let dv = den[n];
        let nv = num[n];
        proof {
            assert((nframes as int) * (AMP_LIMIT as int) <= 4611686018427387904int)
                by (nonlinear_arith)
                requires
                    0 <= nframes <= 65536,
                    AMP_LIMIT == 70368744177664i64,
            ;
            assert(num@[n as int] as int == nv as int);
            assert(-4611686018427387904 <= nv as int <= 4611686018427387904);
        }
        let r: i64 = if dv > WINDOW_EPS {
            let scaled: i128 = nv * 4294967296i128;
            proof {
                assert(scaled as int == (nv as int) * (FP_ONE as int));
            }
            crate::fixed::div_trunc_i128_clamped(scaled, dv, -AMP_LIMIT, AMP_LIMIT)
        } else {
            crate::fixed::div_trunc_i128_clamped(nv, 1, -AMP_LIMIT, AMP_LIMIT)
        };
        proof {
            assert(div_trunc(nv as int, 1) == nv as int);
        }
        out.push(r);
        n = n + 1;
    }
    out
}

/// Scaling every element by a fixed factor scales the sum of squares by the
/// factor's square. This is the exact-arithmetic core of loudness
/// normalization: with gain g = target/rms, the scaled signal's mean square
/// is g² times the measured one, that is the target's square.
pub proof fn lemma_sum_sq_scaled(s: Seq<int>, g: int)
    ensures
        sum_sq(s.map_values(|v: int| g * v)) == (g * g) * sum_sq(s),
    decreases s.len(),
{
    let m = s.map_values(|v: int| g * v);
    if s.len() == 0 {
        assert((g * g) * 0 == 0) by (nonlinear_arith);
    } else {
        lemma_sum_sq_scaled(s.drop_last(), g);
        assert(m.drop_last() =~= s.drop_last().map_values(|v: int| g * v));
        assert(m.last() == g * s.last());
        let a = sum_sq(s.drop_last());
        let b = s.last();
        assert((g * b) * (g * b) == (g * g) * (b * b)) by (nonlinear_arith);
        assert((g * g) * (a + b * b) == (g * g) * a + (g * g) * (b * b)) by (nonlinear_arith);
    }
}

} // verus!
