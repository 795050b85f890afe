//! The hybrid analyzer: split the signal at a crossover derived from the
//! average fundamental into a low and a high band with a 2nd-order biquad
//! pair (the high band as input minus low-pass output), analyze the low
//! band in the time domain and the high band in the frequency domain, and
//! sum the two resulting tables into one peak-normalized wavetable.
//!
//! The biquad coefficients need the transcendental functions of the cutoff,
//! so the caller derives them; the filter recursion, the crossover rule and
//! the band combination are verified here.

use vstd::prelude::*;
use crate::fixed::FP_ONE;
use crate::fixed::AMP_LIMIT;
use crate::fixed::MAX_LEN;
use crate::fixed::bounded;
use crate::fixed::fp_mul_spec;
use crate::fixed::clamp_spec;
use crate::fixed::ints;
use crate::fixed::peak_normalized;
use crate::fixed::peak_normalize;
use crate::fixed::PEAK_EPS;
use crate::fixed::clamp_i64;
use crate::fixed::fp_mul;
use crate::fixed::lemma_fp_mul_bound;
use crate::pitch::voiced_count;
use crate::pitch::voiced_avg;
use crate::pitch::average_voiced;
use crate::types::AnalyzerError;

verus! {

/// Lower crossover bound: 800 Hz in Q32.
pub const CROSSOVER_MIN: i64 = 3435973836800;

/// Upper crossover bound: 3000 Hz in Q32.
pub const CROSSOVER_MAX: i64 = 12884901888000;

/// The crossover frequency rule: five times the average fundamental,
/// clamped into [800, 3000] Hz.
pub open spec fn crossover_spec(avg: int) -> int {
    clamp_spec(5 * avg, CROSSOVER_MIN as int, CROSSOVER_MAX as int)
}

/// Derive the crossover frequency from the fundamental curve; fails with a
/// pitch-estimation failure exactly when no entry is voiced.
pub fn hybrid_crossover(f0_curve: &Vec<i64>) -> (r: Result<i64, AnalyzerError>)
    requires
        f0_curve.len() <= MAX_LEN,
        bounded(f0_curve@, AMP_LIMIT as int),
    ensures
        (voiced_count(ints(f0_curve@)) == 0) <==> r is Err,
        r is Err ==> r == Err::<i64, AnalyzerError>(AnalyzerError::PitchEstimationFailure),
        r matches Ok(c) ==> {
            &&& c as int == crossover_spec(voiced_avg(ints(f0_curve@)))
            &&& CROSSOVER_MIN <= c <= CROSSOVER_MAX
        },
{
    match average_voiced(f0_curve) {
        None => Err(AnalyzerError::PitchEstimationFailure),
        Some(avg) => Ok(clamp_i64(5 * avg, CROSSOVER_MIN, CROSSOVER_MAX)),
    }
}

/// Normalized biquad coefficients (already divided by a0), Q32.
#[derive(Debug, Clone, Copy, PartialEq, Eq, Structural)]
pub struct BiquadCoeffs {
    pub b0: i64,
    pub b1: i64,
    pub b2: i64,
    pub a1: i64,
    pub a2: i64,
}

/// Coefficients the filter accepts: magnitudes of at most 16, so every
/// accumulator term fits its machine word.
pub open spec fn coeffs_ok(c: BiquadCoeffs) -> bool {
    &&& -68719476736 <= c.b0 <= 68719476736
    &&& -68719476736 <= c.b1 <= 68719476736
    &&& -68719476736 <= c.b2 <= 68719476736
    &&& -68719476736 <= c.a1 <= 68719476736
    &&& -68719476736 <= c.a2 <= 68719476736
}

/// The biquad output at index `n`:
/// y[n] = b0·x[n] + b1·x[n-1] + b2·x[n-2] - a1·y[n-1] - a2·y[n-2],
/// saturated into the amplitude limit (the saturation guards the machine
/// word; a stable filter on a real signal never reaches it).
pub open spec fn biquad_y(x: Seq<int>, c: BiquadCoeffs, n: int) -> int
    decreases n + 2,
{
    if n < 0 {
        0
    } else {
        let x0 = x[n];
        let x1 = if n >= 1 {
            x[n - 1]
        } else {
            0
        };
        let x2 = if n >= 2 {
            x[n - 2]
        } else {
            0
        };
        let y1 = biquad_y(x, c, n - 1);
        let y2 = biquad_y(x, c, n - 2);
        let raw = fp_mul_spec(c.b0 as int, x0) + fp_mul_spec(c.b1 as int, x1) + fp_mul_spec(
            c.b2 as int,
            x2,
        ) - fp_mul_spec(c.a1 as int, y1) - fp_mul_spec(c.a2 as int, y2);
        clamp_spec(raw, -(AMP_LIMIT as int), AMP_LIMIT as int)
    }
}

/// Apply the biquad once forward; with `is_highpass` the result is the
/// input minus the low-pass output.
pub fn apply_filter(audio: &Vec<i64>, coeffs: &BiquadCoeffs, is_highpass: bool) -> (out: Vec<
    i64,
>)
    requires
        audio.len() <= MAX_LEN,
        bounded(audio@, AMP_LIMIT as int),
        coeffs_ok(*coeffs),
    ensures
        out.len() == audio.len(),
        !is_highpass ==> forall|i: int|
            0 <= i < out@.len() ==> #[trigger] out@[i] as int == biquad_y(
                ints(audio@),
                *coeffs,
                i,
            ),
        is_highpass ==> forall|i: int|
            0 <= i < out@.len() ==> #[trigger] out@[i] as int == audio@[i] as int - biquad_y(
                ints(audio@),
                *coeffs,
                i,
            ),
        bounded(out@, 2 * AMP_LIMIT as int),
{
    let ghost gx = ints(audio@);
    let n = audio.len();
    let mut out: Vec<i64> = Vec::new();
    let mut x1: i64 = 0;
    let mut x2: i64 = 0;
    let mut y1: i64 = 0;
    let mut y2: i64 = 0;
    let mut i: usize = 0;
    while i < n
        invariant
            i <= n == audio.len() <= MAX_LEN,
            bounded(audio@, AMP_LIMIT as int),
            coeffs_ok(*coeffs),
            gx == ints(audio@),
            out.len() == i,
            x1 as int == (if i >= 1 {
                gx[i as int - 1]
            } else {
                0int
            }),
            x2 as int == (if i >= 2 {
                gx[i as int - 2]
            } else {
                0int
            }),
            y1 as int == biquad_y(gx, *coeffs, i as int - 1),
            y2 as int == biquad_y(gx, *coeffs, i as int - 2),
            -AMP_LIMIT <= y1 <= AMP_LIMIT,
            -AMP_LIMIT <= y2 <= AMP_LIMIT,
            !is_highpass ==> forall|j: int|
                0 <= j < i ==> #[trigger] out@[j] as int == biquad_y(gx, *coeffs, j),
            is_highpass ==> forall|j: int|
                0 <= j < i ==> #[trigger] out@[j] as int == audio@[j] as int - biquad_y(
                    gx,
                    *coeffs,
                    j,
                ),
            bounded(out@, 2 * AMP_LIMIT as int),
        decreases n - i,
    {
        let x0 = audio[i];
        proof {
            assert(gx[i as int] == audio@[i as int] as int);
            lemma_fp_mul_bound(
                coeffs.b0 as int,
                x0 as int,
                68719476736,
                AMP_LIMIT as int,
                1125899906842624,
            );
            lemma_fp_mul_bound(
                coeffs.b1 as int,
                x1 as int,
                68719476736,
                AMP_LIMIT as int,
                1125899906842624,
            );
            lemma_fp_mul_bound(
                coeffs.b2 as int,
                x2 as int,
                68719476736,
                AMP_LIMIT as int,
                1125899906842624,
            );
            lemma_fp_mul_bound(
                coeffs.a1 as int,
                y1 as int,
                68719476736,
                AMP_LIMIT as int,
                1125899906842624,
            );
            lemma_fp_mul_bound(
                coeffs.a2 as int,
                y2 as int,
                68719476736,
                AMP_LIMIT as int,
                1125899906842624,
            );
        }
        let t0 = fp_mul(coeffs.b0, x0);
        let t1 = fp_mul(coeffs.b1, x1);
        let t2 = fp_mul(coeffs.b2, x2);
        let t3 = fp_mul(coeffs.a1, y1);
        let t4 = fp_mul(coeffs.a2, y2);
        let raw: i64 = t0 + t1 + t2 - t3 - t4;
        let y0 = clamp_i64(raw, -AMP_LIMIT, AMP_LIMIT);
        if is_highpass {
            out.push(x0 - y0);
        } else {
            out.push(y0);
        }
        x2 = x1;
        x1 = x0;
        y2 = y1;
        y1 = y0;
        i = i + 1;
    }
    out
}

/// The element-wise sum of the two band tables, the shorter padded with
/// zeros.
pub open spec fn band_sum_at(low: Seq<i64>, high: Seq<i64>, i: int) -> int {
    (if 0 <= i < low.len() {
        low[i] as int
    } else {
        0int
    }) + (if 0 <= i < high.len() {
        high[i] as int
    } else {
        0int
    })
}

/// Sum the two band tables element-wise (missing tails count as zero, the
/// target length is the longer of the two) and peak-normalize the result.
pub fn hybrid_combine(low: &Vec<i64>, high: &Vec<i64>) -> (out: Vec<i64>)
    requires
        low.len() <= MAX_LEN,
        high.len() <= MAX_LEN,
        bounded(low@, 2 * AMP_LIMIT as int),
        bounded(high@, 2 * AMP_LIMIT as int),
    ensures
        out.len() == (if low.len() >= high.len() {
            low.len()
        } else {
            high.len()
        }),
        ints(out@) == peak_normalized(
            Seq::new(
                (if low@.len() >= high@.len() {
                    low@.len()
                } else {
                    high@.len()
                }),
                |i: int| band_sum_at(low@, high@, i) as i64,
            ),
            PEAK_EPS as int,
        ),
        bounded(out@, 4 * AMP_LIMIT as int),
{
    let target: usize = if low.len() >= high.len() {
        low.len()
    } else {
        high.len()
    };
    let mut summed: Vec<i64> = Vec::new();
    let mut i: usize = 0;
    while i < target
        invariant
            i <= target <= MAX_LEN,
            target == (if low.len() >= high.len() {
                low.len()
            } else {
                high.len()
            }),
            bounded(low@, 2 * AMP_LIMIT as int),
            bounded(high@, 2 * AMP_LIMIT as int),
            summed.len() == i,
            forall|j: int|
                0 <= j < i ==> #[trigger] summed@[j] as int == band_sum_at(low@, high@, j),
            bounded(summed@, 4 * AMP_LIMIT as int),
        decreases target - i,
    {
        let a: i64 = if i < low.len() {
            low[i]
        } else {
            0
        };
        let b: i64 = if i < high.len() {
            high[i]
        } else {
            0
        };
        summed.push(a + b);
        i = i + 1;
    }
    let out = peak_normalize(&summed, PEAK_EPS);
    proof {
        assert(summed@ =~= Seq::new(
            (if low@.len() >= high@.len() {
                low@.len()
            } else {
                high@.len()
            }),
            |j: int| band_sum_at(low@, high@, j) as i64,
        ));
        if crate::fixed::max_abs(summed@) > PEAK_EPS as int {
            assert forall|j: int|
                0 <= j < out@.len() implies -(4 * AMP_LIMIT as int) <= #[trigger] out@[j] <= 4
                * AMP_LIMIT as int by {
                assert(-(FP_ONE as int) <= out@[j] <= FP_ONE as int);
            }
        }
    }
    out
}

} // verus!
