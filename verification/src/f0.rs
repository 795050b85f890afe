//! The fundamental-frequency estimator: per-frame fusion of the external
//! detector's estimate with a cepstral estimate, and the gap-filling
//! post-process that reconstructs unvoiced runs by a 4-point Catmull-Rom
//! spline where two context points exist on each side, else by linear
//! interpolation. The caller's transform produces each frame's cepstrum;
//! every decision on those values is made (and verified) here.

use vstd::prelude::*;
use crate::fixed::FP_ONE;
use crate::fixed::AMP_LIMIT;
use crate::fixed::MAX_LEN;
use crate::fixed::bounded;
use crate::fixed::div_trunc;
use crate::fixed::fp_mul_spec;
use crate::fixed::lerp_spec;
use crate::fixed::clamp_spec;
use crate::fixed::clamp_i64;
use crate::fixed::fp_mul;
use crate::fixed::lerp;
use crate::fixed::lemma_div_nn_bound;
use crate::fixed::lemma_div_nn_le;
use crate::fixed::lemma_fp_mul_bound;
use crate::fixed::lemma_div_trunc_bound;
use crate::types::AnalyzerError;

verus! {

/// Analysis frame size of the estimator.
pub const F0_FRAME_SIZE: usize = 2048;

/// Hop between estimator frames.
pub const F0_HOP_SIZE: usize = 512;

/// Detector clarity above this (0.7 in Q32) is accepted outright.
pub const CLARITY_ACCEPT: i64 = 3006477107;

/// One frame's pitch estimate: frequency in Q32 Hz (0 marks unvoiced) and
/// confidence in [0, 1] as Q32.
#[derive(Debug, Clone, Copy, PartialEq, Eq, Structural)]
pub struct PitchEstimate {
    pub f0: i64,
    pub confidence: i64,
}

/// A structurally valid estimate: nonnegative frequency within the
/// amplitude limit, confidence in [0, 1].
pub open spec fn estimate_ok(e: PitchEstimate) -> bool {
    &&& 0 <= e.f0 <= AMP_LIMIT
    &&& 0 <= e.confidence <= FP_ONE
}

/// The fused estimate of one frame: a clear detector hit wins outright; a
/// hesitant one competes with the cepstral estimate by confidence; without a
/// detector result the cepstral estimate is taken unconditionally.
pub open spec fn fuse_frame_spec(yin: Option<PitchEstimate>, cep: PitchEstimate) -> PitchEstimate {
    match yin {
        Some(p) => if p.confidence > CLARITY_ACCEPT {
            p
        } else if cep.confidence > p.confidence {
            cep
        } else {
            p
        },
        None => cep,
    }
}

/// Fuse one frame's detector and cepstral estimates.
pub fn fuse_frame(yin: Option<PitchEstimate>, cep: PitchEstimate) -> (r: PitchEstimate)
    ensures
        r == fuse_frame_spec(yin, cep),
{
    match yin {
        Some(p) => {
            if p.confidence > CLARITY_ACCEPT {
                p
            } else if cep.confidence > p.confidence {
                cep
            } else {
                p
            }
        },
        None => cep,
    }
}

/// Index of the last maximum of `s` in `[start, end)` (the peak search
/// keeps the later of equal values).
pub open spec fn last_argmax(s: Seq<i64>, start: int, end: int) -> int
    decreases end - start,
{
    if end - start <= 1 {
        start
    } else {
        let b = last_argmax(s, start, end - 1);
        if s[end - 1] >= s[b] {
            end - 1
        } else {
            b
        }
    }
}

/// The cepstral estimate a frame's cepstrum yields: the peak in the period
/// range of 80–1000 Hz turned into a frequency, with the peak value (scaled
/// by the frame size and clamped into [0, 1]) as confidence. An empty
/// search range, or a peak that is not positive, yields the unvoiced
/// estimate (0, 0).
pub open spec fn cepstral_pick_spec(cep: Seq<i64>, sample_rate: int, frame_size: int)
    -> PitchEstimate {
    let min_period = sample_rate / 1000;
    let max_period = (sample_rate + 79) / 80;
    let start = if min_period < 1 {
        1int
    } else {
        min_period
    };
    let end = if max_period < (cep.len() as int) / 2 {
        max_period
    } else {
        (cep.len() as int) / 2
    };
    if start >= end {
        PitchEstimate { f0: 0, confidence: 0 }
    } else {
        let p = last_argmax(cep, start, end);
        if cep[p] <= 0 {
            PitchEstimate { f0: 0, confidence: 0 }
        } else {
            PitchEstimate {
                f0: div_trunc(sample_rate * (FP_ONE as int), p) as i64,
                confidence: clamp_spec(div_trunc(cep[p] as int, frame_size), 0, FP_ONE as int)
                    as i64,
            }
        }
    }
}

/// Pick the cepstral estimate from one frame's cepstrum values.
pub fn cepstral_pick(cep: &Vec<i64>, sample_rate: u32, frame_size: usize) -> (r: PitchEstimate)
    requires
        cep.len() <= MAX_LEN,
        bounded(cep@, AMP_LIMIT as int),
        0 < sample_rate <= 16777216,
        0 < frame_size,
    ensures
        r == cepstral_pick_spec(cep@, sample_rate as int, frame_size as int),
        estimate_ok(r),
{
    let min_period: usize = (sample_rate / 1000) as usize;
    let max_period: usize = ((sample_rate + 79) / 80) as usize;
    let start: usize = if min_period < 1 {
        1
    } else {
        min_period
    };
    let end: usize = if max_period < cep.len() / 2 {
        max_period
    } else {
        cep.len() / 2
    };
    if start >= end {
        return PitchEstimate { f0: 0, confidence: 0 };
    }
    let mut best: usize = start;
    let mut i: usize = start + 1;
    while i < end
        invariant
            start < end <= cep.len() / 2,
            cep.len() <= MAX_LEN,
            bounded(cep@, AMP_LIMIT as int),
            start + 1 <= i <= end,
            start <= best < i,
            best as int == last_argmax(cep@, start as int, i as int),
        decreases end - i,
    {
        if cep[i] >= cep[best] {
            best = i;
        }
        i = i + 1;
    }
    let peak = cep[best];
    if peak <= 0 {
        return PitchEstimate { f0: 0, confidence: 0 };
    }
    proof {
        vstd::arithmetic::div_mod::lemma_fundamental_div_mod(sample_rate as int, 1000);
        vstd::arithmetic::div_mod::lemma_mod_bound(sample_rate as int, 1000);
        assert(sample_rate as int <= 2000 * (best as int)) by (nonlinear_arith)
            requires
                sample_rate as int == 1000 * ((sample_rate as int) / 1000) + (sample_rate
                as int) % 1000,
                0 <= (sample_rate as int) % 1000 < 1000,
                best as int >= (sample_rate as int) / 1000,
                best as int >= 1,
        ;
        assert((sample_rate as int) * (FP_ONE as int) <= (8589934592000int) * (best as int))
            by (nonlinear_arith)
            requires
                sample_rate as int <= 2000 * (best as int),
                FP_ONE == 4294967296i64,
                best as int >= 1,
        ;
        vstd::arithmetic::mul::lemma_mul_nonnegative(sample_rate as int, FP_ONE as int);
        lemma_div_nn_bound(
            (sample_rate as int) * (FP_ONE as int),
            best as int,
            8589934592000,
        );
        lemma_div_nn_le(peak as int, frame_size as int);
    }
    let f0: i64 = {
        let p: u128 = (sample_rate as u128) * (FP_ONE as u128);
        ((p / (best as u128)) as i64)
    };
    let conf_raw: i64 = ((peak as u64) / (frame_size as u64)) as i64;
    let confidence = clamp_i64(conf_raw, 0, FP_ONE);
    PitchEstimate { f0, confidence }
}

/// The largest index before `j` holding a voiced (nonzero) entry, or -1.
pub open spec fn prev_nz(s: Seq<i64>, j: int) -> int
    decreases j,
{
    if j <= 0 {
        -1
    } else if s[j - 1] != 0 {
        j - 1
    } else {
        prev_nz(s, j - 1)
    }
}

/// The smallest index after `j` holding a voiced entry, or the length.
pub open spec fn next_nz(s: Seq<i64>, j: int) -> int
    decreases s.len() - j,
{
    if j + 1 >= s.len() {
        s.len() as int
    } else if s[j + 1] != 0 {
        j + 1
    } else {
        next_nz(s, j + 1)
    }
}

/// The value of a 4-point Catmull-Rom spline at normalized parameter
/// `t` in [0, 1] (Q32), as the fixed-point code computes it, clamped into
/// the curve's value range (a frequency is never negative).
pub open spec fn catmull_spec(p0: int, p1: int, p2: int, p3: int, t: int) -> int {
    let t2 = fp_mul_spec(t, t);
    let t3 = fp_mul_spec(t2, t);
    let c1 = p2 - p0;
    let c2 = 2 * p0 - 5 * p1 + 4 * p2 - p3;
    let c3 = 3 * p1 - p0 - 3 * p2 + p3;
    let v = p1 + div_trunc(
        fp_mul_spec(c1, t) + fp_mul_spec(c2, t2) + fp_mul_spec(c3, t3),
        2,
    );
    clamp_spec(v, 0, AMP_LIMIT as int)
}

/// The previous voiced index lies strictly before `j` (and at or after -1).
pub proof fn lemma_prev_nz_lt(s: Seq<i64>, j: int)
    ensures
        -1 <= prev_nz(s, j) < j || j <= 0,
    decreases j,
{
    if j > 0 {
        lemma_prev_nz_lt(s, j - 1);
    }
}

/// The post-processed value at index `j`: a voiced entry is kept; an
/// unvoiced one inside a run bounded by voiced entries on both sides is
/// reconstructed (Catmull-Rom with two context points on each side, else
/// linearly); a leading or trailing run stays unvoiced. The spline's first
/// context point is the already-reconstructed value at `p - 1`, as the fill
/// proceeds left to right over the curve.
pub open spec fn filled_spec(s: Seq<i64>, j: int) -> int
    decreases j,
    when 0 <= j < s.len()
{
    if s[j] != 0 {
        s[j] as int
    } else {
        let p = prev_nz(s, j);
        let q = next_nz(s, j);
        if p < 0 || q >= s.len() {
            0
        } else {
            let t = div_trunc((j - p) * (FP_ONE as int), q - p);
            if p >= 1 && q <= (s.len() as int) - 2 {
                proof {
                    lemma_prev_nz_lt(s, j);
                }
                catmull_spec(
                    filled_spec(s, p - 1),
                    s[p] as int,
                    s[q] as int,
                    s[q + 1] as int,
                    t,
                )
            } else {
                lerp_spec(s[p] as int, s[q] as int, t)
            }
        }
    }
}

/// `p` is the previous voiced index of every position in a run it bounds.
pub proof fn lemma_prev_nz_char(s: Seq<i64>, j: int, p: int)
    requires
        0 <= p < j <= s.len(),
        s[p] != 0,
        forall|m: int| p < m < j ==> s[m] == 0,
    ensures
        prev_nz(s, j) == p,
    decreases j,
{
    if j - 1 == p {
    } else {
        assert(s[j - 1] == 0);
        lemma_prev_nz_char(s, j - 1, p);
    }
}

/// Positions before the first voiced entry have no previous voiced index.
pub proof fn lemma_prev_nz_none(s: Seq<i64>, j: int)
    requires
        0 <= j <= s.len(),
        forall|m: int| 0 <= m < j ==> s[m] == 0,
    ensures
        prev_nz(s, j) == -1,
    decreases j,
{
    if j > 0 {
        lemma_prev_nz_none(s, j - 1);
    }
}

/// `q` is the next voiced index of every position in a run it bounds.
pub proof fn lemma_next_nz_char(s: Seq<i64>, j: int, q: int)
    requires
        0 <= j < q < s.len(),
        s[q] != 0,
        forall|m: int| j < m < q ==> s[m] == 0,
    ensures
        next_nz(s, j) == q,
    decreases s.len() - j,
{
    if j + 1 == q {
    } else {
        assert(s[j + 1] == 0);
        lemma_next_nz_char(s, j + 1, q);
    }
}

/// Positions after the last voiced entry have no next voiced index.
pub proof fn lemma_next_nz_none(s: Seq<i64>, j: int)
    requires
        0 <= j < s.len(),
        forall|m: int| j < m < s.len() ==> s[m] == 0,
    ensures
        next_nz(s, j) == s.len(),
    decreases s.len() - j,
{
    if j + 1 < s.len() {
        lemma_next_nz_none(s, j + 1);
    }
}

/// Interpolation between two curve values stays within the curve's range.
pub proof fn lemma_lerp_range(a: int, b: int, t: int)
    requires
        0 <= a <= AMP_LIMIT as int,
        0 <= b <= AMP_LIMIT as int,
        0 <= t <= FP_ONE as int,
    ensures
        0 <= lerp_spec(a, b, t) <= AMP_LIMIT as int,
{
    let q = FP_ONE as int;
    let x = a * (q - t);
    let y = b * t;
    vstd::arithmetic::mul::lemma_mul_nonnegative(a, q - t);
    vstd::arithmetic::mul::lemma_mul_nonnegative(b, t);
    crate::fixed::lemma_div_trunc_nonneg(x, q);
    crate::fixed::lemma_div_trunc_nonneg(y, q);
    vstd::arithmetic::div_mod::lemma_fundamental_div_mod(x, q);
    vstd::arithmetic::div_mod::lemma_mod_bound(x, q);
    vstd::arithmetic::div_mod::lemma_fundamental_div_mod(y, q);
    vstd::arithmetic::div_mod::lemma_mod_bound(y, q);
    assert(x + y <= (AMP_LIMIT as int) * q) by (nonlinear_arith)
        requires
            0 <= a <= AMP_LIMIT as int,
            0 <= b <= AMP_LIMIT as int,
            0 <= t <= q,
            x == a * (q - t),
            y == b * t,
    ;
    assert(x / q + y / q <= AMP_LIMIT as int) by (nonlinear_arith)
        requires
            x == q * (x / q) + x % q,
            y == q * (y / q) + y % q,
            0 <= x % q,
            0 <= y % q,
            x + y <= (AMP_LIMIT as int) * q,
            q == 4294967296,
    ;
}

/// Evaluate the 4-point Catmull-Rom spline at a normalized Q32 parameter.
fn catmull_eval(p0: i64, p1: i64, p2: i64, p3: i64, t: i64) -> (r: i64)
    requires
        0 <= p0 <= AMP_LIMIT,
        0 <= p1 <= AMP_LIMIT,
        0 <= p2 <= AMP_LIMIT,
        0 <= p3 <= AMP_LIMIT,
        0 <= t <= FP_ONE,
    ensures
        r as int == catmull_spec(p0 as int, p1 as int, p2 as int, p3 as int, t as int),
        0 <= r <= AMP_LIMIT,
{
    proof {
        lemma_fp_mul_bound(t as int, t as int, FP_ONE as int, FP_ONE as int, FP_ONE as int);
    }
    let t2 = fp_mul(t, t);
    proof {
        lemma_fp_mul_bound(t2 as int, t as int, FP_ONE as int, FP_ONE as int, FP_ONE as int);
    }
    let t3 = fp_mul(t2, t);
    let c1 = p2 - p0;
    let c2 = 2 * p0 - 5 * p1 + 4 * p2 - p3;
    let c3 = 3 * p1 - p0 - 3 * p2 + p3;
    proof {
        lemma_fp_mul_bound(
            c1 as int,
            t as int,
            AMP_LIMIT as int,
            FP_ONE as int,
            AMP_LIMIT as int,
        );
        lemma_fp_mul_bound(
            c2 as int,
            t2 as int,
            6 * AMP_LIMIT as int,
            FP_ONE as int,
            6 * AMP_LIMIT as int,
        );
        lemma_fp_mul_bound(
            c3 as int,
            t3 as int,
            4 * AMP_LIMIT as int,
            FP_ONE as int,
            4 * AMP_LIMIT as int,
        );
    }
    let u1 = fp_mul(c1, t);
    let u2 = fp_mul(c2, t2);
    let u3 = fp_mul(c3, t3);
    let total: i64 = u1 + u2 + u3;
    let half: i64 = if total >= 0 {
        total / 2
    } else {
        -((-total) / 2)
    };
    proof {
        assert(half as int == div_trunc(total as int, 2));
        crate::fixed::lemma_div_trunc_bound(total as int, 2, 11 * AMP_LIMIT as int);
    }
    let v = p1 + half;
    clamp_i64(v, 0, AMP_LIMIT)
}

/// Reconstruct the unvoiced gaps of the curve in place: every maximal run
/// of zeros bounded by voiced entries on both sides is filled by a 4-point
/// Catmull-Rom spline when two context points exist on each side, else
/// linearly between the two boundary values; leading and trailing runs stay
/// unvoiced. Afterwards entry `j` is exactly `filled_spec` of the old curve.
pub fn post_process_f0_curve(f0_curve: &mut Vec<i64>)
    requires
        old(f0_curve).len() <= MAX_LEN,
        forall|i: int| 0 <= i < old(f0_curve)@.len() ==> 0 <= #[trigger] old(f0_curve)@[i]
            <= AMP_LIMIT,
    ensures
        final(f0_curve).len() == old(f0_curve).len(),
        forall|j: int|
            0 <= j < final(f0_curve)@.len() ==> #[trigger] final(f0_curve)@[j] as int
                == filled_spec(old(f0_curve)@, j),
        forall|j: int|
            0 <= j < final(f0_curve)@.len() ==> 0 <= #[trigger] final(f0_curve)@[j] <= AMP_LIMIT,
{
    let ghost orig = old(f0_curve)@;
    let n = f0_curve.len();
    let mut i: usize = 0;
    let mut run_start: usize = 0;
    let mut in_run: bool = false;
    while i < n
        invariant
            i <= n == f0_curve.len() <= MAX_LEN,
            f0_curve.len() == orig.len(),
            orig == old(f0_curve)@,
            forall|m: int| 0 <= m < orig.len() ==> 0 <= #[trigger] orig[m] <= AMP_LIMIT,
            in_run ==> run_start < i && (run_start == 0 || orig[run_start as int - 1] != 0),
            in_run ==> forall|m: int| run_start <= m < i ==> #[trigger] orig[m] == 0,
            !in_run && i > 0 ==> orig[i as int - 1] != 0,
            forall|m: int| i <= m < orig.len() ==> #[trigger] f0_curve@[m] == orig[m],
            in_run ==> forall|m: int|
                run_start <= m < i ==> #[trigger] f0_curve@[m] == orig[m],
            forall|m: int|
                0 <= m < i && !(in_run && run_start <= m) ==> #[trigger] f0_curve@[m] as int
                    == filled_spec(orig, m),
            forall|m: int|
                0 <= m < orig.len() ==> 0 <= #[trigger] f0_curve@[m] <= AMP_LIMIT,
        decreases n - i,
    {
        let v = f0_curve[i];
        proof {
            assert(f0_curve@[i as int] == orig[i as int]);
        }
        if v == 0 && !in_run {
            in_run = true;
            run_start = i;
        } else if v != 0 && in_run {
            if run_start > 0 {
                let p: usize = run_start - 1;
                let q: usize = i;
                let use_cm: bool = p >= 1 && q + 1 < n;
                let ghost gp = p as int;
                let ghost gq = q as int;
                let pv = f0_curve[p];
                let qv = f0_curve[q];
                proof {
                    assert(pv == orig[gp]);
                    assert(qv == orig[gq]);
                    assert(pv != 0);
                    assert(qv != 0);
                }
                let pv0: i64 = if p >= 1 {
                    f0_curve[p - 1]
                } else {
                    0
                };
                let qv1: i64 = if q + 1 < n {
                    f0_curve[q + 1]
                } else {
                    0
                };
                proof {
                    if p >= 1 {
                        assert(f0_curve@[gp - 1] as int == filled_spec(orig, gp - 1));
                        assert(pv0 as int == filled_spec(orig, gp - 1));
                    }
                    if q + 1 < n {
                        assert(qv1 == orig[gq + 1]);
                    }
                }
                let mut j: usize = run_start;
                while j < q
                    invariant
                        run_start <= j <= q < n == f0_curve.len() == orig.len() <= MAX_LEN,
                        orig == old(f0_curve)@,
                        forall|m: int| 0 <= m < orig.len() ==> 0 <= #[trigger] orig[m] <= AMP_LIMIT,
                        gp == p as int,
                        gq == q as int,
                        p == run_start - 1,
                        run_start >= 1,
                        orig[gp] != 0,
                        orig[gq] != 0,
                        forall|m: int| gp < m < gq ==> #[trigger] orig[m] == 0,
                        use_cm == (p >= 1 && q + 1 < n),
                        pv == orig[gp],
                        qv == orig[gq],
                        p >= 1 ==> pv0 as int == filled_spec(orig, gp - 1),
                        p >= 1 ==> 0 <= pv0 <= AMP_LIMIT,
                        q + 1 < n ==> qv1 == orig[gq + 1],
                        forall|m: int| j <= m < orig.len() ==> #[trigger] f0_curve@[m] == orig[m],
                        forall|m: int|
                            run_start <= m < j ==> #[trigger] f0_curve@[m] as int == filled_spec(
                                orig,
                                m,
                            ),
                        forall|m: int|
                            0 <= m < run_start ==> #[trigger] f0_curve@[m] as int == filled_spec(
                                orig,
                                m,
                            ),
                        forall|m: int|
                            0 <= m < orig.len() ==> 0 <= #[trigger] f0_curve@[m] <= AMP_LIMIT,
                    decreases q - j,
                {
                    proof {
                        lemma_div_nn_bound(
                            (j as int - gp) * (FP_ONE as int),
                            gq - gp,
                            FP_ONE as int,
                        );
                        assert((j as int - gp) * (FP_ONE as int) <= (FP_ONE as int) * (gq - gp))
                            by (nonlinear_arith)
                            requires
                                0 <= (j as int - gp) <= (gq - gp),
                        ;
                        vstd::arithmetic::mul::lemma_mul_nonnegative(
                            j as int - gp,
                            FP_ONE as int,
                        );
                    }
                    let t: i64 = ((((j - p) as u64) * (FP_ONE as u64)) / ((q - p) as u64)) as i64;
                    let val: i64 = if use_cm {
                        catmull_eval(pv0, pv, qv, qv1, t)
                    } else {
                        proof {
                            lemma_lerp_range(pv as int, qv as int, t as int);
                        }
                        lerp(pv, qv, t)
                    };
                    f0_curve[j] = val;
                    proof {
                        lemma_prev_nz_char(orig, j as int, gp);
                        lemma_next_nz_char(orig, j as int, gq);
                        assert(orig[j as int] == 0);
                        assert(val as int == filled_spec(orig, j as int));
                    }
                    j = j + 1;
                }
            }
            in_run = false;
            proof {
                if run_start == 0 {
                    assert forall|m: int| 0 <= m < i implies #[trigger] f0_curve@[m] as int
                        == filled_spec(orig, m) by {
                        if orig[m] == 0 {
                            lemma_prev_nz_none(orig, m);
                        }
                    }
                }
            }
        }
        i = i + 1;
    }
    proof {
        if in_run {
            assert forall|m: int| run_start <= m < n implies #[trigger] f0_curve@[m] as int
                == filled_spec(orig, m) by {
                assert(orig[m] == 0);
                if run_start == 0 {
                    lemma_prev_nz_none(orig, m);
                } else {
                    lemma_next_nz_none(orig, m);
                }
            }
        }
    }
}

/// A wholly unvoiced curve stays unvoiced: the gap fill reconstructs only
/// runs bounded by voiced entries, so an all-zero fundamental curve (as
/// all-zero audio produces) comes out of the post-process all-zero.
pub proof fn lemma_unvoiced_curve_stays_unvoiced(s: Seq<i64>, j: int)
    requires
        0 <= j < s.len(),
        forall|m: int| 0 <= m < s.len() ==> #[trigger] s[m] == 0,
    ensures
        filled_spec(s, j) == 0,
{
    lemma_prev_nz_none(s, j);
}

/// Number of analysis frames a signal of `len` samples yields.
pub open spec fn f0_frame_count(len: int) -> int {
    if len < F0_FRAME_SIZE as int {
        0
    } else {
        (len - F0_FRAME_SIZE as int) / (F0_HOP_SIZE as int) + 1
    }
}

/// The fused per-frame fundamental curve.
pub open spec fn fused_curve(yin: Seq<Option<PitchEstimate>>, cep: Seq<PitchEstimate>) -> Seq<
    i64,
> {
    Seq::new(yin.len(), |i: int| fuse_frame_spec(yin[i], cep[i]).f0)
}

/// Estimate the fundamental and confidence curves from the per-frame
/// detector results and cepstral estimates: fuse each frame, then
/// reconstruct unvoiced gaps. Fails exactly when the signal is shorter than
/// one analysis frame.
pub fn estimate_f0_curve(
    yin_results: &Vec<Option<PitchEstimate>>,
    cepstral: &Vec<PitchEstimate>,
    audio_len: usize,
    sample_rate: u32,
) -> (r: Result<(Vec<i64>, Vec<i64>), AnalyzerError>)
    requires
        yin_results.len() == cepstral.len() <= MAX_LEN,
        yin_results@.len() as int == f0_frame_count(audio_len as int),
        forall|i: int| 0 <= i < cepstral@.len() ==> estimate_ok(#[trigger] cepstral@[i]),
        forall|i: int|
            0 <= i < yin_results@.len() ==> (#[trigger] yin_results@[i] matches Some(p)
                ==> estimate_ok(p)),
        0 < sample_rate,
    ensures
        (audio_len < F0_FRAME_SIZE) <==> r is Err,
        audio_len < F0_FRAME_SIZE ==> r == Err::<(Vec<i64>, Vec<i64>), AnalyzerError>(
            AnalyzerError::InputError,
        ),
        r matches Ok(curves) ==> {
            &&& curves.0.len() == yin_results.len()
            &&& curves.1.len() == yin_results.len()
            &&& forall|i: int|
                0 <= i < curves.1@.len() ==> #[trigger] curves.1@[i] == fuse_frame_spec(
                    yin_results@[i],
                    cepstral@[i],
                ).confidence
            &&& forall|i: int|
                0 <= i < curves.0@.len() ==> #[trigger] curves.0@[i] as int == filled_spec(
                    fused_curve(yin_results@, cepstral@),
                    i,
                )
            &&& forall|i: int|
                0 <= i < curves.0@.len() ==> 0 <= #[trigger] curves.0@[i] <= AMP_LIMIT
            &&& forall|i: int|
                0 <= i < curves.1@.len() ==> 0 <= #[trigger] curves.1@[i] <= FP_ONE
        },
{
    if audio_len < F0_FRAME_SIZE {
        return Err(AnalyzerError::InputError);
    }
    let n = yin_results.len();
    let mut f0s: Vec<i64> = Vec::new();
    let mut confs: Vec<i64> = Vec::new();
    let mut i: usize = 0;
    while i < n
        invariant
            i <= n == yin_results.len(),
            yin_results.len() == cepstral.len() <= MAX_LEN,
            forall|k: int| 0 <= k < cepstral@.len() ==> estimate_ok(#[trigger] cepstral@[k]),
            forall|k: int|
                0 <= k < yin_results@.len() ==> (#[trigger] yin_results@[k] matches Some(p)
                    ==> estimate_ok(p)),
            f0s.len() == i,
            confs.len() == i,
            forall|k: int|
                0 <= k < i ==> #[trigger] f0s@[k] == fuse_frame_spec(
                    yin_results@[k],
                    cepstral@[k],
                ).f0,
            forall|k: int|
                0 <= k < i ==> #[trigger] confs@[k] == fuse_frame_spec(
                    yin_results@[k],
                    cepstral@[k],
                ).confidence,
            forall|k: int| 0 <= k < i ==> 0 <= #[trigger] f0s@[k] <= AMP_LIMIT,
            forall|k: int| 0 <= k < i ==> 0 <= #[trigger] confs@[k] <= FP_ONE,
        decreases n - i,
    {
        let fused = fuse_frame(yin_results[i], cepstral[i]);
        proof {
            match yin_results@[i as int] {
                Some(p) => {
                    assert(estimate_ok(p));
                },
                None => {},
            }
        }
        f0s.push(fused.f0);
        confs.push(fused.confidence);
        i = i + 1;
    }
    proof {
        assert(f0s@ =~= fused_curve(yin_results@, cepstral@));
    }
    post_process_f0_curve(&mut f0s);
    Ok((f0s, confs))
}

} // verus!
