//! The time-domain analyzer: walk the signal one fundamental period at a
//! time, resample every extracted cycle to the average period length,
//! average them sample-wise, and peak-normalize the result into a single
//! wavetable.

use vstd::prelude::*;
use crate::fixed::FP_ONE;
use crate::fixed::FP_HALF;
use crate::fixed::AMP_LIMIT;
use crate::fixed::MAX_LEN;
use crate::fixed::PEAK_EPS;
use crate::fixed::bounded;
use crate::fixed::div_trunc;
use crate::fixed::fp_div_spec;
use crate::fixed::lerp_spec;
use crate::fixed::ints;
use crate::fixed::fp_round_nn_spec;
use crate::fixed::peak_normalized;
use crate::fixed::peak_normalize;
use crate::fixed::lerp;
use crate::fixed::subvec;
use crate::fixed::div_trunc_i128;
use crate::fixed::lemma_div_nn_bound;
use crate::fixed::lemma_div_nn_le;
use crate::fixed::lemma_div_trunc_bound;
use crate::pitch::voiced_count;
use crate::pitch::voiced_avg;
use crate::pitch::average_voiced;
use crate::types::AnalyzerError;

verus! {

/// Hop size of the fundamental-frequency curve, in samples.
pub const TIME_HOP: usize = 512;

/// The target cycle length: the sample rate over the average fundamental,
/// rounded to the nearest whole sample.
pub open spec fn target_period_spec(sample_rate: int, avg: int) -> int {
    fp_round_nn_spec(fp_div_spec(sample_rate * (FP_ONE as int), avg))
}

/// The machine-size conditions under which the cycle walk is defined.
pub open spec fn walk_ok(curve: Seq<i64>, avg: int, srq: int, target: int) -> bool {
    &&& forall|i: int| 0 <= i < curve.len() ==> 0 <= #[trigger] curve[i] <= AMP_LIMIT
    &&& FP_ONE as int <= avg <= AMP_LIMIT as int
    &&& FP_ONE as int <= srq <= (MAX_LEN as int) * (FP_ONE as int)
    &&& 2 <= target <= MAX_LEN as int
}

/// The local period (Q32 samples) at read position `pos`: the curve entry of
/// the hop-indexed frame (the average beyond the curve's end) turned into a
/// period, or the target length where the frame is unvoiced.
pub open spec fn local_period(curve: Seq<i64>, avg: int, srq: int, target: int, pos: int) -> int {
    let fi = pos / ((TIME_HOP as int) * (FP_ONE as int));
    let f0 = if 0 <= fi < curve.len() {
        curve[fi] as int
    } else {
        avg
    };
    if f0 > 0 {
        fp_div_spec(srq, f0)
    } else {
        target * (FP_ONE as int)
    }
}

/// Every local period is at least one raw Q32 unit and at most srq·FP_ONE,
/// so the walk always advances and the arithmetic fits.
pub proof fn lemma_local_period_bounds(
    curve: Seq<i64>,
    avg: int,
    srq: int,
    target: int,
    pos: int,
)
    requires
        walk_ok(curve, avg, srq, target),
    ensures
        1 <= local_period(curve, avg, srq, target, pos) <= srq * (FP_ONE as int),
{
    let fi = pos / ((TIME_HOP as int) * (FP_ONE as int));
    let f0 = if 0 <= fi < curve.len() {
        curve[fi] as int
    } else {
        avg
    };
    if f0 > 0 {
        assert(1 <= div_trunc(srq * (FP_ONE as int), f0) <= srq * (FP_ONE as int))
            by (nonlinear_arith)
            requires
                0 < f0 <= AMP_LIMIT as int,
                FP_ONE as int <= srq,
                AMP_LIMIT == 70368744177664i64,
                FP_ONE == 4294967296i64,
                div_trunc(srq * (FP_ONE as int), f0) == srq * (FP_ONE as int) / f0,
        ;
    } else {
        assert(target * (FP_ONE as int) <= srq * (FP_ONE as int)) by (nonlinear_arith)
            requires
                2 <= target <= MAX_LEN as int,
                FP_ONE as int <= srq <= (MAX_LEN as int) * (FP_ONE as int),
                MAX_LEN == 16777216usize,
                FP_ONE == 4294967296i64,
        ;
        assert(target * (FP_ONE as int) >= 1) by (nonlinear_arith)
            requires
                2 <= target,
                FP_ONE == 4294967296i64,
        ;
    }
}

/// Number of whole cycles the walk extracts from position `pos` on: the
/// walk stops at the buffer's end, or as soon as a full cycle would exceed
/// it.
pub open spec fn walk_count(
    alen: int,
    curve: Seq<i64>,
    avg: int,
    srq: int,
    target: int,
    pos: int,
) -> int
    decreases alen * (FP_ONE as int) + (FP_ONE as int) - pos,
        when walk_ok(curve, avg, srq, target) && 0 <= pos
{
    if pos / (FP_ONE as int) >= alen {
        0
    } else {
        let period = local_period(curve, avg, srq, target, pos);
        let endr = fp_round_nn_spec(pos + period);
        if endr > alen {
            0
        } else {
            proof {
                lemma_local_period_bounds(curve, avg, srq, target, pos);
                lemma_walk_progress(alen, pos, period);
            }
            1 + walk_count(alen, curve, avg, srq, target, pos + period)
        }
    }
}

/// The accumulated (cycle-resampled) sample at output index `k`, summed over
/// the cycles the walk extracts from position `pos` on.
pub open spec fn walk_sum(
    audio: Seq<i64>,
    curve: Seq<i64>,
    avg: int,
    srq: int,
    target: int,
    pos: int,
    k: int,
) -> int
    decreases (audio.len() as int) * (FP_ONE as int) + (FP_ONE as int) - pos,
        when walk_ok(curve, avg, srq, target) && 0 <= pos
{
    let alen = audio.len() as int;
    if pos / (FP_ONE as int) >= alen {
        0
    } else {
        let period = local_period(curve, avg, srq, target, pos);
        let startr = fp_round_nn_spec(pos);
        let endr = fp_round_nn_spec(pos + period);
        if endr > alen {
            0
        } else {
            proof {
                lemma_local_period_bounds(curve, avg, srq, target, pos);
                lemma_walk_progress(alen, pos, period);
            }
            resample_at(audio.subrange(startr, endr), target, k) + walk_sum(
                audio,
                curve,
                avg,
                srq,
                target,
                pos + period,
                k,
            )
        }
    }
}

/// The walk's position strictly advances, and a continued walk stays below
/// the buffer end plus one sample.
pub proof fn lemma_walk_progress(alen: int, pos: int, period: int)
    requires
        1 <= period,
        0 <= pos,
        fp_round_nn_spec(pos + period) <= alen,
    ensures
        alen * (FP_ONE as int) + (FP_ONE as int) - (pos + period) < alen * (FP_ONE as int) + (
        FP_ONE as int) - pos,
        0 <= alen * (FP_ONE as int) + (FP_ONE as int) - (pos + period),
        0 <= pos + period,
{
    let q = FP_ONE as int;
    let h = FP_HALF as int;
    let e = pos + period;
    vstd::arithmetic::div_mod::lemma_fundamental_div_mod(e + h, q);
    vstd::arithmetic::div_mod::lemma_mod_bound(e + h, q);
    assert((e + h) / q <= alen);
    assert(e + h <= alen * q + q - 1) by (nonlinear_arith)
        requires
            e + h == q * ((e + h) / q) + (e + h) % q,
            0 <= (e + h) % q < q,
            (e + h) / q <= alen,
            q == 4294967296,
    ;
}

/// One sample of a cycle linearly resampled to `target_len` samples (as the
/// analyzer computes it, with the source index scaled by
/// (len-1)/(target_len-1)); an empty cycle reads as 0.
pub open spec fn resample_at(wave: Seq<i64>, target_len: int, k: int) -> int {
    if wave.len() == 0 {
        0
    } else {
        let scale = div_trunc(((wave.len() as int) - 1) * (FP_ONE as int), target_len - 1);
        let idx = k * scale;
        let i0 = idx / (FP_ONE as int);
        let i1 = if i0 + 1 < wave.len() as int {
            i0 + 1
        } else {
            (wave.len() as int) - 1
        };
        lerp_spec(wave[i0] as int, wave[i1] as int, idx % (FP_ONE as int))
    }
}

/// Linearly resample a cycle to `target_len` samples; an empty input gives
/// zeros.
pub fn resample_linear(wave: &Vec<i64>, target_len: usize) -> (out: Vec<i64>)
    requires
        wave.len() <= MAX_LEN,
        bounded(wave@, AMP_LIMIT as int),
        2 <= target_len <= MAX_LEN,
    ensures
        out.len() == target_len,
        forall|k: int|
            0 <= k < target_len ==> #[trigger] out@[k] as int == resample_at(
                wave@,
                target_len as int,
                k,
            ),
        bounded(out@, 2 * AMP_LIMIT as int),
{
    let n = wave.len();
    let mut out: Vec<i64> = Vec::new();
    if n == 0 {
        let mut k: usize = 0;
        while k < target_len
            invariant
                k <= target_len,
                out.len() == k,
                forall|j: int| 0 <= j < k ==> #[trigger] out@[j] == 0i64,
                bounded(out@, 2 * AMP_LIMIT as int),
            decreases target_len - k,
        {
            out.push(0);
            k = k + 1;
        }
        return out;
    }
    proof {
        assert(((n as int) - 1) * (FP_ONE as int) <= (MAX_LEN as int) * (FP_ONE as int))
            by (nonlinear_arith)
            requires
                1 <= (n as int) <= (MAX_LEN as int),
        ;
        vstd::arithmetic::mul::lemma_mul_nonnegative((n as int) - 1, FP_ONE as int);
        lemma_div_nn_le(((n as int) - 1) * (FP_ONE as int), (target_len as int) - 1);
    }
    let scale: i64 = ((((n - 1) as u64) * (FP_ONE as u64)) / ((target_len - 1) as u64)) as i64;
    let mut k: usize = 0;
    while k < target_len
        invariant
            k <= target_len <= MAX_LEN,
            2 <= target_len,
            1 <= n == wave.len() <= MAX_LEN,
            bounded(wave@, AMP_LIMIT as int),
            scale as int == div_trunc(((n as int) - 1) * (FP_ONE as int), (target_len as int) - 1),
            0 <= scale,
            out.len() == k,
            forall|j: int|
                0 <= j < k ==> #[trigger] out@[j] as int == resample_at(
                    wave@,
                    target_len as int,
                    j,
                ),
            bounded(out@, 2 * AMP_LIMIT as int),
        decreases target_len - k,
    {
        proof {
            vstd::arithmetic::div_mod::lemma_fundamental_div_mod(
                ((n as int) - 1) * (FP_ONE as int),
                (target_len as int) - 1,
            );
            vstd::arithmetic::div_mod::lemma_mod_bound(
                ((n as int) - 1) * (FP_ONE as int),
                (target_len as int) - 1,
            );
            vstd::arithmetic::mul::lemma_mul_nonnegative(k as int, scale as int);
            assert((k as int) * (scale as int) <= ((n as int) - 1) * (FP_ONE as int))
                by (nonlinear_arith)
                requires
                    0 <= (k as int) <= (target_len as int) - 1,
                    0 <= scale,
                    ((target_len as int) - 1) * (scale as int) <= ((n as int) - 1) * (FP_ONE
                    as int),
            ;
            assert(((target_len as int) - 1) * (scale as int) <= ((n as int) - 1) * (FP_ONE
            as int)) by (nonlinear_arith)
                requires
                    ((n as int) - 1) * (FP_ONE as int) == ((target_len as int) - 1) * (scale
                    as int) + (((n as int) - 1) * (FP_ONE as int)) % ((target_len as int) - 1),
                    0 <= (((n as int) - 1) * (FP_ONE as int)) % ((target_len as int) - 1),
            ;
        }
        let idx: i64 = {
            let p: u128 = (k as u128) * (scale as u128);
            (p as i64)
        };
        let i0u: i64 = idx / FP_ONE;
        proof {
            vstd::arithmetic::div_mod::lemma_fundamental_div_mod(idx as int, FP_ONE as int);
            vstd::arithmetic::div_mod::lemma_mod_bound(idx as int, FP_ONE as int);
            assert((idx as int) / (FP_ONE as int) <= (n as int) - 1) by (nonlinear_arith)
                requires
                    0 <= idx as int <= ((n as int) - 1) * (FP_ONE as int),
                    (idx as int) == (FP_ONE as int) * ((idx as int) / (FP_ONE as int)) + (idx
                    as int) % (FP_ONE as int),
                    0 <= (idx as int) % (FP_ONE as int) < FP_ONE as int,
                    FP_ONE == 4294967296i64,
            ;
        }
        let i0: usize = i0u as usize;
        let f: i64 = idx - i0u * FP_ONE;
        let i1: usize = if i0 + 1 < n {
            i0 + 1
        } else {
            n - 1
        };
        let v = lerp(wave[i0], wave[i1], f);
        out.push(v);
        k = k + 1;
    }
    out
}

/// The raw averaged table: each output sample is the walk's accumulated
/// resampled value divided by the number of extracted cycles.
pub open spec fn averaged_table(
    audio: Seq<i64>,
    curve: Seq<i64>,
    avg: int,
    srq: int,
    target: int,
) -> Seq<int> {
    let count = walk_count(audio.len() as int, curve, avg, srq, target, 0);
    Seq::new(
        target as nat,
        |k: int| div_trunc(walk_sum(audio, curve, avg, srq, target, 0, k), count),
    )
}

/// Time-domain analysis: average the fundamental over the voiced frames,
/// derive the target cycle length, slice the signal into local-period
/// cycles, resample each to the target length, average them, and
/// peak-normalize. Fails when no voiced frame yields an average of at least
/// 1 Hz, when the average period is shorter than 2 samples, or when not one
/// whole cycle fits the signal.
pub fn analyze_time_domain(audio: &Vec<i64>, sample_rate: u32, f0_curve: &Vec<i64>) -> (r: Result<
    Vec<Vec<i64>>,
    AnalyzerError,
>)
    requires
        audio.len() <= MAX_LEN,
        bounded(audio@, AMP_LIMIT as int),
        f0_curve.len() <= MAX_LEN,
        forall|i: int| 0 <= i < f0_curve@.len() ==> 0 <= #[trigger] f0_curve@[i] <= AMP_LIMIT,
        0 < sample_rate <= 16777216,
    ensures
        ({
            let c = ints(f0_curve@);
            let srq = (sample_rate as int) * (FP_ONE as int);
            let avg = voiced_avg(c);
            let target = target_period_spec(sample_rate as int, avg);
            if voiced_count(c) == 0 || avg < FP_ONE as int {
                r == Err::<Vec<Vec<i64>>, AnalyzerError>(AnalyzerError::PitchEstimationFailure)
            } else if target < 2 {
                r == Err::<Vec<Vec<i64>>, AnalyzerError>(AnalyzerError::PitchEstimationFailure)
            } else if walk_count(audio@.len() as int, f0_curve@, avg, srq, target, 0) == 0 {
                r == Err::<Vec<Vec<i64>>, AnalyzerError>(AnalyzerError::SynthesisEmptyResult)
            } else {
                r matches Ok(v) && v.len() == 1 && v@[0].len() as int == target && ints(v@[0]@)
                    == peak_normalized(
                    averaged_table(
                        audio@,
                        f0_curve@,
                        avg,
                        srq,
                        target,
                    ).map_values(|x: int| x as i64),
                    PEAK_EPS as int,
                ) && bounded(v@[0]@, 2 * AMP_LIMIT as int)
            }
        }),
{
    let ghost c = ints(f0_curve@);
    let avg_opt = average_voiced(f0_curve);
    let avg: i64 = match avg_opt {
        Some(a) => a,
        None => {
            return Err(AnalyzerError::PitchEstimationFailure);
        },
    };
    if avg < FP_ONE {
        return Err(AnalyzerError::PitchEstimationFailure);
    }
    let srq: i64 = (sample_rate as i64) * FP_ONE;
    proof {
        lemma_div_nn_bound(
            (srq as int) * (FP_ONE as int),
            avg as int,
            (MAX_LEN as int) * (FP_ONE as int),
        );
        assert((srq as int) * (FP_ONE as int) <= ((MAX_LEN as int) * (FP_ONE as int)) * (avg
        as int)) by (nonlinear_arith)
            requires
                0 < srq as int <= (MAX_LEN as int) * (FP_ONE as int),
                FP_ONE as int <= avg as int,
        ;
        vstd::arithmetic::mul::lemma_mul_nonnegative(srq as int, FP_ONE as int);
    }
    let period_q: i64 = {
        let p: u128 = (srq as u128) * (FP_ONE as u128);
        ((p / (avg as u128)) as i64)
    };
    let target_w: u64 = crate::fixed::fp_round_nn(period_q);
    proof {
        lemma_div_trunc_bound(
            period_q as int + FP_HALF as int,
            FP_ONE as int,
            (MAX_LEN as int) + 1,
        );
        assert(target_w as int == target_period_spec(sample_rate as int, avg as int));
    }
    let target: usize = target_w as usize;
    if target < 2 {
        return Err(AnalyzerError::PitchEstimationFailure);
    }
    proof {
        assert(target as int <= MAX_LEN as int) by {
            assert(period_q as int <= (MAX_LEN as int) * (FP_ONE as int));
            assert((period_q as int + FP_HALF as int) / (FP_ONE as int) <= MAX_LEN as int)
                by (nonlinear_arith)
                requires
                    0 <= period_q as int <= (MAX_LEN as int) * (FP_ONE as int),
                    FP_ONE == 4294967296i64,
                    FP_HALF == 2147483648i64,
                    MAX_LEN == 16777216usize,
            ;
        }
        assert(walk_ok(f0_curve@, avg as int, srq as int, target as int));
    }

    let alen = audio.len();
    let mut sums: Vec<i128> = Vec::new();
    let mut z: usize = 0;
    while z < target
        invariant
            z <= target,
            sums.len() == z,
            forall|j: int| 0 <= j < z ==> #[trigger] sums@[j] == 0,
        decreases target - z,
    {
        sums.push(0);
        z = z + 1;
    }
    let mut count: u64 = 0;
    let mut pos: i64 = 0;
    let ghost total_count = walk_count(alen as int, f0_curve@, avg as int, srq as int, target
        as int, 0);
    let ghost gsums = Seq::new(
        target as nat,
        |k: int| walk_sum(audio@, f0_curve@, avg as int, srq as int, target as int, 0, k),
    );
    while ((pos as u64) / (FP_ONE as u64)) < (alen as u64)
        invariant_except_break
            0 <= pos,
            pos as int <= (alen as int) * (FP_ONE as int) + FP_ONE as int,
            count as int <= pos as int,
            alen == audio.len() <= MAX_LEN,
            bounded(audio@, AMP_LIMIT as int),
            walk_ok(f0_curve@, avg as int, srq as int, target as int),
            2 <= target <= MAX_LEN,
            f0_curve.len() <= MAX_LEN,
            sums.len() == target,
            count as int + walk_count(
                alen as int,
                f0_curve@,
                avg as int,
                srq as int,
                target as int,
                pos as int,
            ) == total_count,
            forall|k: int|
                0 <= k < target ==> #[trigger] sums@[k] as int + walk_sum(
                    audio@,
                    f0_curve@,
                    avg as int,
                    srq as int,
                    target as int,
                    pos as int,
                    k,
                ) == gsums[k],
            forall|k: int|
                0 <= k < target ==> -((count as int) * (2 * AMP_LIMIT as int))
                    <= #[trigger] sums@[k] as int <= (count as int) * (2 * AMP_LIMIT as int),
        ensures
            sums.len() == target,
            count as int == total_count,
            count as int <= (alen as int) * (FP_ONE as int) + FP_ONE as int,
            forall|k: int| 0 <= k < target ==> #[trigger] sums@[k] as int == gsums[k],
            forall|k: int|
                0 <= k < target ==> -((count as int) * (2 * AMP_LIMIT as int))
                    <= #[trigger] sums@[k] as int <= (count as int) * (2 * AMP_LIMIT as int),
        decreases (alen as int) * (FP_ONE as int) + FP_ONE as int - pos as int,
    {
        proof {
            lemma_local_period_bounds(
                f0_curve@,
                avg as int,
                srq as int,
                target as int,
                pos as int,
            );
        }
        let fi_w: u64 = (pos as u64) / ((TIME_HOP as u64) * (FP_ONE as u64));
        let f0: i64 = if (fi_w as usize) < f0_curve.len() && fi_w <= (MAX_LEN as u64) {
            f0_curve[fi_w as usize]
        } else {
            avg
        };
        proof {
            let fi = (pos as int) / ((TIME_HOP as int) * (FP_ONE as int));
            assert(fi == fi_w as int);
            if 0 <= fi && fi < f0_curve@.len() {
                assert((fi_w as usize) < f0_curve.len());
            }
        }
        let period128: i128 = if f0 > 0 {
            proof {
                vstd::arithmetic::mul::lemma_mul_nonnegative(srq as int, FP_ONE as int);
            }
            let p: u128 = (srq as u128) * (FP_ONE as u128);
            ((p / (f0 as u128)) as i128)
        } else {
            (target as i128) * (FP_ONE as i128)
        };
        proof {
            assert(period128 as int == local_period(
                f0_curve@,
                avg as int,
                srq as int,
                target as int,
                pos as int,
            ));
            assert(1 <= period128 as int);
        }
        let start_w: u64 = crate::fixed::fp_round_nn(pos);
        let end128: i128 = (pos as i128) + period128;
        let endr128: i128 = ((end128 as u128 + (FP_HALF as u128)) / (FP_ONE as u128)) as i128;
        proof {
            assert(endr128 as int == fp_round_nn_spec(pos as int + period128 as int));
        }
        if endr128 > (alen as i128) {
            proof {
                assert(walk_count(
                    alen as int,
                    f0_curve@,
                    avg as int,
                    srq as int,
                    target as int,
                    pos as int,
                ) == 0);
                assert(forall|k: int|
                    0 <= k < target ==> #[trigger] walk_sum(
                        audio@,
                        f0_curve@,
                        avg as int,
                        srq as int,
                        target as int,
                        pos as int,
                        k,
                    ) == 0);
            }
            break ;
        }
        proof {
            lemma_walk_progress(alen as int, pos as int, period128 as int);
        }
        let endr: usize = endr128 as usize;
        let start: usize = start_w as usize;
        proof {
            lemma_div_trunc_bound(pos as int + FP_HALF as int, FP_ONE as int, alen as int + 1);
            lemma_round_le(pos as int, pos as int + period128 as int);
        }
        let cycle = subvec(audio, start, endr);
        proof {
            assert forall|i: int|
                0 <= i < cycle@.len() implies -(AMP_LIMIT as int) <= #[trigger] cycle@[i]
                <= AMP_LIMIT as int by {
                assert(cycle@[i] == audio@[start as int + i]);
            }
        }
        let resampled = resample_linear(&cycle, target);
        let ghost gsums_prev = Seq::new(target as nat, |j: int| sums@[j] as int);
        let mut k: usize = 0;
        while k < target
            invariant
                k <= target == sums.len(),
                resampled.len() == target,
                bounded(resampled@, 2 * AMP_LIMIT as int),
                0 <= count <= 0x200000000000000u64,
                forall|j: int| k <= j < target ==> #[trigger] sums@[j] as int == gsums_prev[j],
                forall|j: int|
                    0 <= j < k ==> #[trigger] sums@[j] as int == gsums_prev[j] + resampled@[j]
                        as int,
                forall|j: int|
                    0 <= j < target ==> -((count as int) * (2 * AMP_LIMIT as int))
                        <= #[trigger] gsums_prev[j] <= (count as int) * (2 * AMP_LIMIT as int),
                forall|j: int|
                    0 <= j < target ==> -((count as int + 1) * (2 * AMP_LIMIT as int))
                        <= #[trigger] sums@[j] as int <= (count as int + 1) * (2 * AMP_LIMIT
                    as int),
            decreases target - k,
        {
            proof {
                assert((count as int + 1) * (2 * AMP_LIMIT as int) == (count as int) * (2
                    * AMP_LIMIT as int) + 2 * AMP_LIMIT as int) by (nonlinear_arith);
                assert((count as int + 1) * (2 * AMP_LIMIT as int)
                    <= 0x1000000000000000000000000000) by (nonlinear_arith)
                    requires
                        0 <= count <= 0x200000000000000u64,
                        AMP_LIMIT == 70368744177664i64,
                ;
            }
            let s = sums[k] + (resampled[k] as i128);
            sums[k] = s;
            k = k + 1;
        }
        proof {
            let gpos = pos as int;
            let gnext = gpos + period128 as int;
            assert(walk_count(alen as int, f0_curve@, avg as int, srq as int, target as int, gpos)
                == 1 + walk_count(
                alen as int,
                f0_curve@,
                avg as int,
                srq as int,
                target as int,
                gnext,
            ));
            assert(cycle@ == audio@.subrange(
                fp_round_nn_spec(gpos),
                fp_round_nn_spec(gpos + local_period(
                    f0_curve@,
                    avg as int,
                    srq as int,
                    target as int,
                    gpos,
                )),
            ));
            assert forall|j: int| 0 <= j < target implies #[trigger] walk_sum(
                audio@,
                f0_curve@,
                avg as int,
                srq as int,
                target as int,
                gpos,
                j,
            ) == resample_at(cycle@, target as int, j) + walk_sum(
                audio@,
                f0_curve@,
                avg as int,
                srq as int,
                target as int,
                gnext,
                j,
            ) by {
            }
            assert((count as int + 1) * (2 * AMP_LIMIT as int) == (count as int) * (2 * AMP_LIMIT
                as int) + 2 * AMP_LIMIT as int) by (nonlinear_arith);
        }
        count = count + 1;
        pos = pos + (period128 as i64);
    }
    if count == 0 {
        return Err(AnalyzerError::SynthesisEmptyResult);
    }
    let mut avgd: Vec<i64> = Vec::new();
    let mut k: usize = 0;
    while k < target
        invariant
            k <= target == sums.len(),
            alen <= MAX_LEN,
            0 < count,
            count as int <= (alen as int) * (FP_ONE as int) + FP_ONE as int,
            forall|j: int|
                0 <= j < target ==> -((count as int) * (2 * AMP_LIMIT as int))
                    <= #[trigger] sums@[j] as int <= (count as int) * (2 * AMP_LIMIT as int),
            avgd.len() == k,
            forall|j: int|
                0 <= j < k ==> #[trigger] avgd@[j] as int == div_trunc(
                    sums@[j] as int,
                    count as int,
                ),
            bounded(avgd@, 2 * AMP_LIMIT as int),
        decreases target - k,
    {
        proof {
            assert((count as int) * (2 * AMP_LIMIT as int) == (2 * AMP_LIMIT as int) * (count
            as int)) by (nonlinear_arith);
            assert(-(2 * AMP_LIMIT as int) * (count as int) == -((count as int) * (2 * AMP_LIMIT
            as int))) by (nonlinear_arith);
            assert((count as int) * (2 * AMP_LIMIT as int) <= 0x1000000000000000000000000000)
                by (nonlinear_arith)
                requires
                    0 <= count as int <= (alen as int) * (FP_ONE as int) + FP_ONE as int,
                    alen <= MAX_LEN,
                    MAX_LEN == 16777216usize,
                    FP_ONE == 4294967296i64,
                    AMP_LIMIT == 70368744177664i64,
            ;
            lemma_div_trunc_bound(sums@[k as int] as int, count as int, 2 * AMP_LIMIT as int);
        }
        let a = div_trunc_i128(sums[k], count as i64);
        avgd.push(a);
        k = k + 1;
    }
    let table = peak_normalize(&avgd, PEAK_EPS);
    proof {
        let gt = averaged_table(audio@, f0_curve@, avg as int, srq as int, target as int);
        let mapped = gt.map_values(|x: int| x as i64);
        assert forall|j: int| 0 <= j < target implies avgd@[j] == #[trigger] mapped[j] by {
            assert(gt[j] == div_trunc(gsums[j], total_count));
            assert(avgd@[j] as int == div_trunc(gsums[j], total_count));
        }
        assert(avgd@ =~= mapped);
        assert(avgd@ == gt.map_values(|x: int| x as i64));
        if crate::fixed::max_abs(avgd@) > PEAK_EPS as int {
            assert(bounded(table@, FP_ONE as int));
            assert(bounded(table@, 2 * AMP_LIMIT as int));
        } else {
            assert(table@ == avgd@);
        }
    }
    let mut result: Vec<Vec<i64>> = Vec::new();
    result.push(table);
    Ok(result)
}

/// Rounding to the nearest sample is monotone.
pub proof fn lemma_round_le(a: int, b: int)
    requires
        a <= b,
    ensures
        fp_round_nn_spec(a) <= fp_round_nn_spec(b),
{
    vstd::arithmetic::div_mod::lemma_div_is_ordered(
        a + FP_HALF as int,
        b + FP_HALF as int,
        FP_ONE as int,
    );
}

} // verus!
