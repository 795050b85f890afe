//! Dynamic pitch sync: cancel residual pitch wobble in a produced table by
//! advancing a fractional read cursor at the local-to-average frequency
//! ratio. A curve without a usable average (no voiced entry, or an average
//! below 1 Hz) leaves the tables unchanged — that identity is part of the
//! contract.

use vstd::prelude::*;
use crate::fixed::FP_ONE;
use crate::fixed::AMP_LIMIT;
use crate::fixed::MAX_LEN;
use crate::fixed::bounded;
use crate::fixed::div_trunc;
use crate::fixed::fp_div_spec;
use crate::fixed::lerp_spec;
use crate::fixed::ints;
use crate::fixed::fp_div;
use crate::fixed::lerp;
use crate::fixed::fp_round_nn;
use crate::fixed::fp_round_nn_spec;
use crate::fixed::lemma_div_nn_bound;
use crate::pitch::voiced_count;
use crate::pitch::voiced_avg;
use crate::pitch::average_voiced;
use crate::types::AnalyzerError;

verus! {

/// Non-wrapping linear read of `wave` at Q32 index `idx`: 0 outside
/// [0, len-1), else the interpolation of the two neighboring samples.
pub open spec fn edge_read_spec(wave: Seq<i64>, idx: int) -> int {
    if wave.len() == 0 || idx < 0 || idx >= ((wave.len() as int) - 1) * (FP_ONE as int) {
        0
    } else {
        let i0 = idx / (FP_ONE as int);
        lerp_spec(wave[i0] as int, wave[i0 + 1] as int, idx % (FP_ONE as int))
    }
}

/// Non-wrapping linear read of a bounded table at a Q32 index.
pub fn edge_read(wave: &Vec<i64>, idx: i64) -> (r: i64)
    requires
        wave.len() <= MAX_LEN,
        bounded(wave@, AMP_LIMIT as int),
    ensures
        r as int == edge_read_spec(wave@, idx as int),
        -2 * AMP_LIMIT <= r <= 2 * AMP_LIMIT,
{
    let n = wave.len();
    if n == 0 {
        return 0;
    }
    let limit: i64 = ((n - 1) as i64) * FP_ONE;
    if idx < 0 || idx >= limit {
        return 0;
    }
    let i0u: i64 = idx / FP_ONE;
    proof {
        vstd::arithmetic::div_mod::lemma_fundamental_div_mod(idx as int, FP_ONE as int);
        vstd::arithmetic::div_mod::lemma_mod_bound(idx as int, FP_ONE as int);
    }
    let i0: usize = i0u as usize;
    let f: i64 = idx - i0u * FP_ONE;
    proof {
        assert(f as int == (idx as int) % (FP_ONE as int));
        assert(i0 < n - 1);
    }
    lerp(wave[i0], wave[i0 + 1], f)
}

/// The speed ratio at output index `i`: the local frequency (the curve entry
/// nearest to the proportional position, or the average beyond the end)
/// over the average, or one where the local entry is unvoiced.
pub open spec fn speed_ratio_at(curve: Seq<i64>, avg: int, table_len: int, i: int) -> int {
    let fi = fp_round_nn_spec(div_trunc(i * (curve.len() as int) * (FP_ONE as int), table_len));
    let f0 = if 0 <= fi < curve.len() {
        curve[fi] as int
    } else {
        avg
    };
    if f0 > 0 {
        fp_div_spec(f0, avg)
    } else {
        FP_ONE as int
    }
}

/// The read cursor before output index `i`: starts at 0 and advances by the
/// speed ratio each step, wrapping once at the table span.
pub open spec fn cursor_at(curve: Seq<i64>, avg: int, table_len: int, i: int) -> int
    decreases i,
{
    if i <= 0 {
        0
    } else {
        let prev = cursor_at(curve, avg, table_len, i - 1) + speed_ratio_at(
            curve,
            avg,
            table_len,
            i - 1,
        );
        if prev >= table_len * (FP_ONE as int) {
            prev - table_len * (FP_ONE as int)
        } else {
            prev
        }
    }
}

/// One resynchronized table: each output sample reads the source table at
/// the running cursor.
fn sync_table(table: &Vec<i64>, curve: &Vec<i64>, avg: i64) -> (out: Vec<i64>)
    requires
        table.len() <= MAX_LEN,
        bounded(table@, AMP_LIMIT as int),
        curve.len() <= MAX_LEN,
        bounded(curve@, AMP_LIMIT as int),
        FP_ONE <= avg <= AMP_LIMIT,
    ensures
        out.len() == table.len(),
        forall|i: int|
            0 <= i < out@.len() ==> out@[i] as int == edge_read_spec(
                table@,
                cursor_at(curve@, avg as int, table@.len() as int, i),
            ),
        bounded(out@, 2 * AMP_LIMIT as int),
{
    let n = table.len();
    let mut out: Vec<i64> = Vec::new();
    if n == 0 {
        return out;
    }
    let flen = curve.len();
    let span: i64 = (n as i64) * FP_ONE;
    let mut cur: i128 = 0;
    let mut i: usize = 0;
    while i < n
        invariant
            i <= n == table.len() <= MAX_LEN,
            n > 0,
            flen == curve.len() <= MAX_LEN,
            bounded(table@, AMP_LIMIT as int),
            bounded(curve@, AMP_LIMIT as int),
            FP_ONE <= avg <= AMP_LIMIT,
            span == (n as i64) * FP_ONE,
            cur as int == cursor_at(curve@, avg as int, n as int, i as int),
            0 <= cur as int <= span as int + (i as int) * (AMP_LIMIT as int),
            out.len() == i,
            forall|j: int|
                0 <= j < i ==> out@[j] as int == edge_read_spec(
                    table@,
                    cursor_at(curve@, avg as int, n as int, j),
                ),
            bounded(out@, 2 * AMP_LIMIT as int),
        decreases n - i,
    {
        proof {
            vstd::arithmetic::mul::lemma_mul_nonnegative(
                (i as int) * (flen as int),
                FP_ONE as int,
            );
            vstd::arithmetic::mul::lemma_mul_nonnegative(i as int, flen as int);
            assert((i as int) * (flen as int) * (FP_ONE as int) <= (MAX_LEN as int) * (MAX_LEN
            as int) * (FP_ONE as int)) by (nonlinear_arith)
                requires
                    0 <= (i as int) <= (MAX_LEN as int),
                    0 <= (flen as int) <= (MAX_LEN as int),
            ;
            assert((i as int) * (flen as int) * (FP_ONE as int) <= ((flen as int) * (FP_ONE
            as int)) * (n as int)) by (nonlinear_arith)
                requires
                    0 <= (i as int) < (n as int),
                    0 <= (flen as int),
            ;
            lemma_div_nn_bound(
                (i as int) * (flen as int) * (FP_ONE as int),
                n as int,
                (flen as int) * (FP_ONE as int),
            );
            assert((flen as int) * (FP_ONE as int) <= (MAX_LEN as int) * (FP_ONE as int))
                by (nonlinear_arith)
                requires
                    0 <= (flen as int) <= (MAX_LEN as int),
            ;
        }
        let fi_q: i64 = {
            let p: u128 = (i as u128) * (flen as u128) * (FP_ONE as u128);
            ((p / (n as u128)) as i64)
        };
        proof {
            assert(fi_q as int == div_trunc(
                (i as int) * (flen as int) * (FP_ONE as int),
                n as int,
            ));
        }
        let fi_w: u64 = fp_round_nn(fi_q);
        let f0: i64 = if (fi_w as usize) < flen && fi_w <= (MAX_LEN as u64) {
            curve[fi_w as usize]
        } else {
            avg
        };
        proof {
            let fi = fp_round_nn_spec(fi_q as int);
            assert(fi == fi_w as int);
            if 0 <= fi && fi < flen as int {
                assert((fi_w as usize) < flen);
                assert(fi_w <= MAX_LEN as u64);
            }
        }
        let ratio: i64 = if f0 > 0 {
            proof {
                lemma_div_nn_bound((f0 as int) * (FP_ONE as int), avg as int, AMP_LIMIT as int);
                assert((f0 as int) * (FP_ONE as int) <= (AMP_LIMIT as int) * (avg as int))
                    by (nonlinear_arith)
                    requires
                        0 < f0 <= AMP_LIMIT,
                        FP_ONE <= avg,
            ;
            }
            fp_div(f0, avg)
        } else {
            FP_ONE
        };
        let limit: i64 = ((n - 1) as i64) * FP_ONE;
        let v: i64 = if cur >= (limit as i128) {
            proof {
                assert(edge_read_spec(table@, cur as int) == 0);
            }
            0
        } else {
            edge_read(table, cur as i64)
        };
        out.push(v);
        proof {
            assert((i as int) * (AMP_LIMIT as int) <= (MAX_LEN as int) * (AMP_LIMIT as int))
                by (nonlinear_arith)
                requires
                    0 <= (i as int) <= (MAX_LEN as int),
            ;
            assert(((i + 1) as int) * (AMP_LIMIT as int) == (i as int) * (AMP_LIMIT as int)
                + AMP_LIMIT as int) by (nonlinear_arith);
        }
        let mut nc: i128 = cur + (ratio as i128);
        if nc >= span as i128 {
            nc = nc - (span as i128);
        }
        cur = nc;
        i = i + 1;
    }
    out
}

/// Cancel residual pitch wobble: resample each table by the ratio of the
/// local to the average fundamental. When the curve has no voiced entry, or
/// its voiced average is below 1 Hz, every table is returned unchanged (the
/// sync is an identity transform); this function never fails.
pub fn apply_pitch_sync(tables: &Vec<Vec<i64>>, f0_curve: &Vec<i64>) -> (r: Result<
    Vec<Vec<i64>>,
    AnalyzerError,
>)
    requires
        tables.len() <= MAX_LEN,
        forall|t: int| 0 <= t < tables@.len() ==> (#[trigger] tables@[t]).len() <= MAX_LEN,
        forall|t: int| 0 <= t < tables@.len() ==> bounded(#[trigger] tables@[t]@, AMP_LIMIT as int),
        f0_curve.len() <= MAX_LEN,
        bounded(f0_curve@, AMP_LIMIT as int),
    ensures
        r is Ok,
        r matches Ok(out) ==> {
            &&& out.len() == tables.len()
            &&& forall|t: int|
                0 <= t < out@.len() ==> (#[trigger] out@[t]).len() == tables@[t].len()
            &&& (voiced_count(ints(f0_curve@)) == 0 || voiced_avg(ints(f0_curve@)) < FP_ONE
                as int) ==> forall|t: int|
                0 <= t < out@.len() ==> (#[trigger] out@[t])@ == tables@[t]@
            &&& (voiced_count(ints(f0_curve@)) > 0 && voiced_avg(ints(f0_curve@)) >= FP_ONE
                as int) ==> forall|t: int, i: int|
                0 <= t < out@.len() && 0 <= i < out@[t]@.len() ==> (#[trigger] out@[t]@[i])
                    as int == edge_read_spec(
                    tables@[t]@,
                    cursor_at(f0_curve@, voiced_avg(ints(f0_curve@)), tables@[t]@.len() as int, i),
                )
        },
{
    let avg_opt = average_voiced(f0_curve);
    let n = tables.len();
    let mut out: Vec<Vec<i64>> = Vec::new();
    match avg_opt {
        Some(avg) if avg >= FP_ONE => {
            let mut t: usize = 0;
            while t < n
                invariant
                    t <= n == tables.len() <= MAX_LEN,
                    forall|k: int|
                        0 <= k < tables@.len() ==> (#[trigger] tables@[k]).len() <= MAX_LEN,
                    forall|k: int|
                        0 <= k < tables@.len() ==> bounded(
                            #[trigger] tables@[k]@,
                            AMP_LIMIT as int,
                        ),
                    f0_curve.len() <= MAX_LEN,
                    bounded(f0_curve@, AMP_LIMIT as int),
                    FP_ONE <= avg <= AMP_LIMIT,
                    avg as int == voiced_avg(ints(f0_curve@)),
                    out.len() == t,
                    forall|k: int|
                        0 <= k < t ==> (#[trigger] out@[k]).len() == tables@[k].len(),
                    forall|k: int, i: int|
                        0 <= k < t && 0 <= i < out@[k]@.len() ==> (#[trigger] out@[k]@[i])
                            as int == edge_read_spec(
                            tables@[k]@,
                            cursor_at(f0_curve@, avg as int, tables@[k]@.len() as int, i),
                        ),
                decreases n - t,
            {
                let synced = sync_table(&tables[t], f0_curve, avg);
                out.push(synced);
                t = t + 1;
            }
            Ok(out)
        },
        _ => {
            let mut t: usize = 0;
            while t < n
                invariant
                    t <= n == tables.len(),
                    out.len() == t,
                    forall|k: int| 0 <= k < t ==> (#[trigger] out@[k])@ == tables@[k]@,
                decreases n - t,
            {
                out.push(crate::fixed::copy_vec(&tables[t]));
                t = t + 1;
            }
            Ok(out)
        },
    }
}

} // verus!
