//! The quality inspector: resynthesize a full-length signal from the main
//! table and the fundamental curve, score it against the original by
//! mean-centered normalized correlation, and measure the relative spectral
//! magnitude residual over the two signals' spectra (whose magnitudes the
//! caller's transform supplies). Without a table the metrics degenerate to
//! correlation 0, residual 1, undetermined-share 0.

use vstd::prelude::*;
use crate::fixed::FP_ONE;
use crate::fixed::AMP_LIMIT;
use crate::fixed::MAX_LEN;
use crate::fixed::bounded;
use crate::fixed::div_trunc;
use crate::fixed::lerp_spec;
use crate::fixed::ints;
use crate::fixed::sqrt_floor;
use crate::fixed::clamp_spec;
use crate::fixed::lerp;
use crate::fixed::isqrt;
use crate::fixed::rem_euclid_i64;
use crate::fixed::lemma_div_nn_le;
use crate::fixed::lemma_sqrt_floor_unique;
use crate::types::QualityMetrics;

verus! {

/// Hop size of the fundamental-frequency curve, in samples.
pub const QUALITY_HOP: usize = 512;

/// Wrapping linear read of a table at a phase in [0, 1): the phase is
/// scaled to the table length and the two neighboring samples interpolated;
/// a table shorter than 2 samples reads as 0.
pub open spec fn table_read_spec(table: Seq<i64>, phase: int) -> int {
    if table.len() < 2 {
        0
    } else {
        let idx = phase * (table.len() as int);
        let i0 = idx / (FP_ONE as int);
        lerp_spec(
            table[i0] as int,
            table[(i0 + 1) % (table.len() as int)] as int,
            idx % (FP_ONE as int),
        )
    }
}

/// Wrapping linear read of a bounded table at a Q32 phase in [0, 1).
pub fn table_read(table: &Vec<i64>, phase: i64) -> (r: i64)
    requires
        table.len() <= MAX_LEN,
        bounded(table@, AMP_LIMIT as int),
        0 <= phase < FP_ONE,
    ensures
        r as int == table_read_spec(table@, phase as int),
        -2 * AMP_LIMIT <= r <= 2 * AMP_LIMIT,
{
    let n = table.len();
    if n < 2 {
        return 0;
    }
    proof {
        assert((phase as int) * (n as int) <= 72057594037927936) by (nonlinear_arith)
            requires
                0 <= phase < FP_ONE,
                FP_ONE == 4294967296i64,
                0 <= n <= MAX_LEN,
                MAX_LEN == 16777216usize,
        ;
        vstd::arithmetic::mul::lemma_mul_nonnegative(phase as int, n as int);
    }
    let idx: i64 = phase * (n as i64);
    proof {
        vstd::arithmetic::div_mod::lemma_fundamental_div_mod(idx as int, FP_ONE as int);
        vstd::arithmetic::div_mod::lemma_mod_bound(idx as int, FP_ONE as int);
        assert((idx as int) / (FP_ONE as int) < n as int) by (nonlinear_arith)
            requires
                idx as int == (phase as int) * (n as int),
                0 <= phase < FP_ONE,
                FP_ONE == 4294967296i64,
                1 <= n as int,
                (idx as int) == (FP_ONE as int) * ((idx as int) / (FP_ONE as int)) + (idx
                as int) % (FP_ONE as int),
                0 <= (idx as int) % (FP_ONE as int) < FP_ONE as int,
        ;
    }
    let i0u: i64 = idx / FP_ONE;
    let i0: usize = i0u as usize;
    let f: i64 = idx - i0u * FP_ONE;
    let i1: usize = if i0 + 1 == n {
        0
    } else {
        i0 + 1
    };
    proof {
        if i0 + 1 == n {
            vstd::arithmetic::div_mod::lemma_mod_multiples_vanish(1, 0, n as int);
            vstd::arithmetic::div_mod::lemma_small_mod(0nat, n as nat);
        } else {
            vstd::arithmetic::div_mod::lemma_small_mod((i0 + 1) as nat, n as nat);
        }
    }
    lerp(table[i0], table[i1], f)
}

/// The resynthesis phase used for output sample `i`: advanced by the local
/// fundamental over the sample rate wherever the frame is voiced, wrapped
/// into [0, 1).
pub open spec fn phase_at(curve: Seq<i64>, sample_rate: int, i: int) -> int
    decreases i,
{
    let prev = if i <= 0 {
        0int
    } else {
        phase_at(curve, sample_rate, i - 1)
    };
    let fi = if i / (QUALITY_HOP as int) < (curve.len() as int) - 1 {
        i / (QUALITY_HOP as int)
    } else {
        (curve.len() as int) - 1
    };
    let f0 = curve[fi] as int;
    if f0 > 0 {
        (prev + div_trunc(f0, sample_rate)) % (FP_ONE as int)
    } else {
        prev
    }
}

/// Resynthesize `output_len` samples from the main table: a phase
/// accumulator advances by f0/sample rate per sample (wrapping at one) and
/// reads the table by linear interpolation. An empty table or curve yields
/// silence.
pub fn resynthesize_audio(
    table: &Vec<i64>,
    f0_curve: &Vec<i64>,
    sample_rate: u32,
    output_len: usize,
) -> (out: Vec<i64>)
    requires
        table.len() <= MAX_LEN,
        bounded(table@, AMP_LIMIT as int),
        f0_curve.len() <= MAX_LEN,
        forall|i: int| 0 <= i < f0_curve@.len() ==> 0 <= #[trigger] f0_curve@[i] <= AMP_LIMIT,
        0 < sample_rate,
        output_len <= MAX_LEN,
    ensures
        out.len() == output_len,
        table.len() == 0 || f0_curve.len() == 0 ==> forall|i: int|
            0 <= i < output_len ==> #[trigger] out@[i] == 0i64,
        table.len() > 0 && f0_curve.len() > 0 ==> forall|i: int|
            0 <= i < output_len ==> #[trigger] out@[i] as int == table_read_spec(
                table@,
                phase_at(f0_curve@, sample_rate as int, i),
            ),
        bounded(out@, 2 * AMP_LIMIT as int),
{
    let n = output_len;
    let mut out: Vec<i64> = Vec::new();
    if table.len() == 0 || f0_curve.len() == 0 {
        let mut i: usize = 0;
        while i < n
            invariant
                i <= n,
                out.len() == i,
                forall|j: int| 0 <= j < i ==> #[trigger] out@[j] == 0i64,
                bounded(out@, 2 * AMP_LIMIT as int),
            decreases n - i,
        {
            out.push(0);
            i = i + 1;
        }
        return out;
    }
    let flen = f0_curve.len();
    let mut phase: i64 = 0;
    let mut i: usize = 0;
    while i < n
        invariant
            i <= n == output_len <= MAX_LEN,
            table.len() <= MAX_LEN,
            bounded(table@, AMP_LIMIT as int),
            0 < flen == f0_curve.len() <= MAX_LEN,
            forall|k: int| 0 <= k < f0_curve@.len() ==> 0 <= #[trigger] f0_curve@[k] <= AMP_LIMIT,
            0 < sample_rate,
            table.len() > 0,
            0 <= phase < FP_ONE,
            phase as int == (if i == 0 {
                0int
            } else {
                phase_at(f0_curve@, sample_rate as int, i as int - 1)
            }),
            out.len() == i,
            forall|j: int|
                0 <= j < i ==> #[trigger] out@[j] as int == table_read_spec(
                    table@,
                    phase_at(f0_curve@, sample_rate as int, j),
                ),
            bounded(out@, 2 * AMP_LIMIT as int),
        decreases n - i,
    {
        let fi: usize = if i / QUALITY_HOP < flen - 1 {
            i / QUALITY_HOP
        } else {
            flen - 1
        };
        let f0 = f0_curve[fi];
        if f0 > 0 {
            proof {
                lemma_div_nn_le(f0 as int, sample_rate as int);
            }
            let inc: i64 = ((f0 as u64) / (sample_rate as u64)) as i64;
            phase = rem_euclid_i64(phase + inc, FP_ONE);
        }
        let v = table_read(table, phase);
        out.push(v);
        i = i + 1;
    }
    out
}

/// The mean-centered normalized correlation of two signals, clamped into
/// [0, 1] (as Q32): the centered dot product over the product of the two
/// root energies. Degenerate (zero-variance) signals score 0.
pub open spec fn correlation_spec(a: Seq<i64>, b: Seq<i64>) -> int {
    let n = a.len() as int;
    let ma = div_trunc(crate::fixed::sum_ints(ints(a)), n);
    let mb = div_trunc(crate::fixed::sum_ints(ints(b)), n);
    let cov = centered_dot(a, b, ma, mb, n);
    let va = centered_dot(a, a, ma, ma, n);
    let vb = centered_dot(b, b, mb, mb, n);
    let d = div_trunc(sqrt_floor(va) * sqrt_floor(vb), FP_ONE as int);
    if d <= 0 {
        0
    } else {
        clamp_spec(div_trunc(cov, d), 0, FP_ONE as int)
    }
}

/// Sum over the first `k` indices of the centered products
/// (a[i]-ma)·(b[i]-mb).
pub open spec fn centered_dot(a: Seq<i64>, b: Seq<i64>, ma: int, mb: int, k: int) -> int
    decreases k,
{
    if k <= 0 {
        0
    } else {
        centered_dot(a, b, ma, mb, k - 1) + (a[k - 1] as int - ma) * (b[k - 1] as int - mb)
    }
}

/// Bound: each centered product of `c`-bounded signals with `c`-bounded
/// means is at most 4c², so the dot over k terms is at most k·4c².
pub proof fn lemma_centered_dot_bounds(a: Seq<i64>, b: Seq<i64>, ma: int, mb: int, k: int, c: int)
    requires
        0 <= c,
        0 <= k <= a.len(),
        k <= b.len(),
        bounded(a, c),
        bounded(b, c),
        -c <= ma <= c,
        -c <= mb <= c,
    ensures
        -(k * (4 * c * c)) <= centered_dot(a, b, ma, mb, k) <= k * (4 * c * c),
    decreases k,
{
    if k <= 0 {
    } else {
        lemma_centered_dot_bounds(a, b, ma, mb, k - 1, c);
        assert(-(4 * c * c) <= (a[k - 1] as int - ma) * (b[k - 1] as int - mb) <= 4 * c * c)
            by (nonlinear_arith)
            requires
                -c <= a[k - 1] as int <= c,
                -c <= b[k - 1] as int <= c,
                -c <= ma <= c,
                -c <= mb <= c,
                0 <= c,
        ;
        assert(k * (4 * c * c) == (k - 1) * (4 * c * c) + 4 * c * c) by (nonlinear_arith);
    }
}

/// A squared centered dot of a signal with itself is nonnegative.
pub proof fn lemma_centered_dot_self_nonneg(a: Seq<i64>, ma: int, k: int)
    requires
        0 <= k <= a.len(),
    ensures
        0 <= centered_dot(a, a, ma, ma, k),
    decreases k,
{
    if k <= 0 {
    } else {
        lemma_centered_dot_self_nonneg(a, ma, k - 1);
        assert((a[k - 1] as int - ma) * (a[k - 1] as int - ma) >= 0) by (nonlinear_arith);
    }
}

/// The correlation score of two equally long signals, exactly
/// `correlation_spec`: always within [0, 1] as Q32.
pub fn correlation_score(a: &Vec<i64>, b: &Vec<i64>) -> (r: i64)
    requires
        0 < a.len() == b.len(),
        a.len() <= MAX_LEN,
        bounded(a@, 2 * AMP_LIMIT as int),
        bounded(b@, 2 * AMP_LIMIT as int),
    ensures
        r as int == correlation_spec(a@, b@),
        0 <= r <= FP_ONE,
{
    let ghost c = 2 * AMP_LIMIT as int;
    let n = a.len();
    let ma = signal_mean(a);
    let mb = signal_mean(b);
    let mut cov: i128 = 0;
    let mut va: i128 = 0;
    let mut vb: i128 = 0;
    let mut i: usize = 0;
    while i < n
        invariant
            i <= n == a.len(),
            a.len() == b.len() <= MAX_LEN,
            bounded(a@, c),
            bounded(b@, c),
            c == 2 * AMP_LIMIT as int,
            -(2 * AMP_LIMIT) <= ma <= 2 * AMP_LIMIT,
            -(2 * AMP_LIMIT) <= mb <= 2 * AMP_LIMIT,
            cov as int == centered_dot(a@, b@, ma as int, mb as int, i as int),
            va as int == centered_dot(a@, a@, ma as int, ma as int, i as int),
            vb as int == centered_dot(b@, b@, mb as int, mb as int, i as int),
            -((i as int) * (4 * c * c)) <= cov as int <= (i as int) * (4 * c * c),
            -((i as int) * (4 * c * c)) <= va as int <= (i as int) * (4 * c * c),
            -((i as int) * (4 * c * c)) <= vb as int <= (i as int) * (4 * c * c),
        decreases n - i,
    {
        let da: i128 = (a[i] as i128) - (ma as i128);
        let db: i128 = (b[i] as i128) - (mb as i128);
        proof {
            assert(-(4 * c * c) <= (a@[i as int] as int - ma as int) * (b@[i as int] as int - mb
                as int) <= 4 * c * c) by (nonlinear_arith)
                requires
                    -c <= a@[i as int] as int <= c,
                    -c <= b@[i as int] as int <= c,
                    -c <= ma as int <= c,
                    -c <= mb as int <= c,
                    0 <= c,
            ;
            assert(-(4 * c * c) <= (a@[i as int] as int - ma as int) * (a@[i as int] as int - ma
                as int) <= 4 * c * c) by (nonlinear_arith)
                requires
                    -c <= a@[i as int] as int <= c,
                    -c <= ma as int <= c,
                    0 <= c,
            ;
            assert(-(4 * c * c) <= (b@[i as int] as int - mb as int) * (b@[i as int] as int - mb
                as int) <= 4 * c * c) by (nonlinear_arith)
                requires
                    -c <= b@[i as int] as int <= c,
                    -c <= mb as int <= c,
                    0 <= c,
            ;
            assert(((i + 1) as int) * (4 * c * c) == (i as int) * (4 * c * c) + 4 * c * c)
                by (nonlinear_arith);
            assert((i as int) * (4 * c * c) <= 0x1000000000000000000000000000000)
                by (nonlinear_arith)
                requires
                    0 <= (i as int) <= (MAX_LEN as int),
                    c == 2 * AMP_LIMIT as int,
                    AMP_LIMIT == 70368744177664i64,
                    MAX_LEN == 16777216usize,
            ;
            assert(4 * c * c <= 0x100000000000000000000000000) by (nonlinear_arith)
                requires
                    c == 2 * AMP_LIMIT as int,
                    AMP_LIMIT == 70368744177664i64,
            ;
            assert(da as int == a@[i as int] as int - ma as int);
            assert(db as int == b@[i as int] as int - mb as int);
        }
        cov = cov + da * db;
        va = va + da * da;
        vb = vb + db * db;
        i = i + 1;
    }
    proof {
        lemma_centered_dot_self_nonneg(a@, ma as int, n as int);
        lemma_centered_dot_self_nonneg(b@, mb as int, n as int);
        assert((n as int) * (4 * c * c) <= 0x1000000000000000000000000000000)
            by (nonlinear_arith)
            requires
                0 <= (n as int) <= (MAX_LEN as int),
                c == 2 * AMP_LIMIT as int,
                AMP_LIMIT == 70368744177664i64,
                MAX_LEN == 16777216usize,
        ;
    }
    let sa: u64 = isqrt(va as u128);
    let sb: u64 = isqrt(vb as u128);
    proof {
        assert((sa as int) * (sa as int) <= va as int);
        assert((sb as int) * (sb as int) <= vb as int);
        assert(sa as int <= 0x1000000000000000) by (nonlinear_arith)
            requires
                (sa as int) * (sa as int) <= va as int,
                va as int <= 0x1000000000000000000000000000000,
                0 <= sa as int,
        ;
        assert(sb as int <= 0x1000000000000000) by (nonlinear_arith)
            requires
                (sb as int) * (sb as int) <= vb as int,
                vb as int <= 0x1000000000000000000000000000000,
                0 <= sb as int,
        ;
        assert((sa as int) * (sb as int) <= 0x1000000000000000000000000000000)
            by (nonlinear_arith)
            requires
                0 <= sa as int <= 0x1000000000000000,
                0 <= sb as int <= 0x1000000000000000,
        ;
        vstd::arithmetic::mul::lemma_mul_nonnegative(sa as int, sb as int);
        crate::fixed::lemma_div_trunc_nonneg((sa as int) * (sb as int), FP_ONE as int);
        crate::fixed::lemma_div_nn_le((sa as int) * (sb as int), FP_ONE as int);
    }
    let prod: u128 = (sa as u128) * (sb as u128);
    let d: i128 = (prod / (FP_ONE as u128)) as i128;
    if d <= 0 {
        0
    } else {
        crate::fixed::div_i128_clamped(cov, d, 0, FP_ONE)
    }
}

/// The mean (rounded toward zero) of a bounded signal.
fn signal_mean(a: &Vec<i64>) -> (r: i64)
    requires
        0 < a.len() <= MAX_LEN,
        bounded(a@, 2 * AMP_LIMIT as int),
    ensures
        r as int == div_trunc(crate::fixed::sum_ints(ints(a@)), a@.len() as int),
        -(2 * AMP_LIMIT) <= r <= 2 * AMP_LIMIT,
{
    let ghost s = ints(a@);
    let n = a.len();
    let mut total: i128 = 0;
    let mut i: usize = 0;
    while i < n
        invariant
            i <= n == a.len() <= MAX_LEN,
            bounded(a@, 2 * AMP_LIMIT as int),
            s == ints(a@),
            total as int == crate::fixed::sum_ints(s.subrange(0, i as int)),
            -((i as int) * (2 * AMP_LIMIT as int)) <= total as int <= (i as int) * (2 * AMP_LIMIT
            as int),
        decreases n - i,
    {
        proof {
            crate::fixed::lemma_sum_ints_push(s, i as int);
            assert(s[i as int] == a@[i as int] as int);
            assert(((i + 1) as int) * (2 * AMP_LIMIT as int) == (i as int) * (2 * AMP_LIMIT
            as int) + 2 * AMP_LIMIT as int) by (nonlinear_arith);
            assert((i as int) * (2 * AMP_LIMIT as int) <= 0x10000000000000000000)
                by (nonlinear_arith)
                requires
                    0 <= (i as int) <= (MAX_LEN as int),
                    AMP_LIMIT == 70368744177664i64,
                    MAX_LEN == 16777216usize,
            ;
        }
        total = total + (a[i] as i128);
        i = i + 1;
    }
    proof {
        assert(s.subrange(0, n as int) =~= s);
        assert((n as int) * (2 * AMP_LIMIT as int) == (2 * AMP_LIMIT as int) * (n as int))
            by (nonlinear_arith);
        assert(-(2 * AMP_LIMIT as int) * (n as int) == -((n as int) * (2 * AMP_LIMIT as int)))
            by (nonlinear_arith);
        assert((n as int) * (2 * AMP_LIMIT as int) <= 0x10000000000000000000)
            by (nonlinear_arith)
            requires
                0 <= (n as int) <= (MAX_LEN as int),
                AMP_LIMIT == 70368744177664i64,
                MAX_LEN == 16777216usize,
        ;
        crate::fixed::lemma_div_trunc_bound(total as int, n as int, 2 * AMP_LIMIT as int);
    }
    crate::fixed::div_trunc_i128(total, n as i64)
}

/// Sum over the first `k` indices of the squared magnitude differences.
pub open spec fn diff_sq_sum(a: Seq<i64>, b: Seq<i64>, k: int) -> int
    decreases k,
{
    if k <= 0 {
        0
    } else {
        diff_sq_sum(a, b, k - 1) + (a[k - 1] as int - b[k - 1] as int) * (a[k - 1] as int - b[k
            - 1] as int)
    }
}

/// The relative spectral residual as Q32: the root of the summed squared
/// magnitude differences over the root of the original's summed squared
/// magnitudes (0 when the original spectrum is silent), clamped into the
/// machine word. Never negative.
pub open spec fn residual_spec(o: Seq<i64>, r: Seq<i64>) -> int {
    let rs = diff_sq_sum(o, r, o.len() as int);
    let os = crate::fixed::sum_sq(ints(o));
    if sqrt_floor(os) <= 0 {
        0
    } else {
        clamp_spec(
            div_trunc(sqrt_floor(rs) * (FP_ONE as int), sqrt_floor(os)),
            0,
            i64::MAX as int,
        )
    }
}

/// Score the spectral residual of the resynthesis against the original from
/// the two spectra's bin magnitudes.
pub fn spectral_residual(orig_mags: &Vec<i64>, resynth_mags: &Vec<i64>) -> (r: i64)
    requires
        orig_mags.len() == resynth_mags.len() <= MAX_LEN,
        bounded(orig_mags@, 2 * AMP_LIMIT as int),
        bounded(resynth_mags@, 2 * AMP_LIMIT as int),
    ensures
        r as int == residual_spec(orig_mags@, resynth_mags@),
        0 <= r,
{
    let ghost c = 2 * AMP_LIMIT as int;
    let n = orig_mags.len();
    let mut rs: i128 = 0;
    let mut os: i128 = 0;
    let mut i: usize = 0;
    while i < n
        invariant
            i <= n == orig_mags.len(),
            orig_mags.len() == resynth_mags.len() <= MAX_LEN,
            bounded(orig_mags@, c),
            bounded(resynth_mags@, c),
            c == 2 * AMP_LIMIT as int,
            rs as int == diff_sq_sum(orig_mags@, resynth_mags@, i as int),
            os as int == crate::fixed::sum_sq(ints(orig_mags@).subrange(0, i as int)),
            0 <= rs as int <= (i as int) * (4 * c * c),
            0 <= os as int <= (i as int) * (c * c),
        decreases n - i,
    {
        let d: i128 = (orig_mags[i] as i128) - (resynth_mags[i] as i128);
        let x: i128 = orig_mags[i] as i128;
        proof {
            crate::fixed::lemma_sum_sq_push(ints(orig_mags@), i as int);
            assert(ints(orig_mags@)[i as int] == orig_mags@[i as int] as int);
            assert(0 <= (orig_mags@[i as int] as int - resynth_mags@[i as int] as int) * (
            orig_mags@[i as int] as int - resynth_mags@[i as int] as int) <= 4 * c * c)
                by (nonlinear_arith)
                requires
                    -c <= orig_mags@[i as int] as int <= c,
                    -c <= resynth_mags@[i as int] as int <= c,
                    0 <= c,
            ;
            assert(0 <= (orig_mags@[i as int] as int) * (orig_mags@[i as int] as int) <= c * c)
                by (nonlinear_arith)
                requires
                    -c <= orig_mags@[i as int] as int <= c,
                    0 <= c,
            ;
            assert(((i + 1) as int) * (4 * c * c) == (i as int) * (4 * c * c) + 4 * c * c)
                by (nonlinear_arith);
            assert(((i + 1) as int) * (c * c) == (i as int) * (c * c) + c * c)
                by (nonlinear_arith);
            assert((i as int) * (4 * c * c) <= 0x1000000000000000000000000000000)
                by (nonlinear_arith)
                requires
                    0 <= (i as int) <= (MAX_LEN as int),
                    c == 2 * AMP_LIMIT as int,
                    AMP_LIMIT == 70368744177664i64,
                    MAX_LEN == 16777216usize,
            ;
            assert((i as int) * (c * c) <= 0x1000000000000000000000000000000)
                by (nonlinear_arith)
                requires
                    0 <= (i as int) <= (MAX_LEN as int),
                    c == 2 * AMP_LIMIT as int,
                    AMP_LIMIT == 70368744177664i64,
                    MAX_LEN == 16777216usize,
            ;
            assert(4 * c * c <= 0x100000000000000000000000000) by (nonlinear_arith)
                requires
                    c == 2 * AMP_LIMIT as int,
                    AMP_LIMIT == 70368744177664i64,
            ;
            assert(c * c <= 0x100000000000000000000000000) by (nonlinear_arith)
                requires
                    c == 2 * AMP_LIMIT as int,
                    AMP_LIMIT == 70368744177664i64,
            ;
            assert(d as int == orig_mags@[i as int] as int - resynth_mags@[i as int] as int);
            assert(x as int == orig_mags@[i as int] as int);
        }
        rs = rs + d * d;
        os = os + x * x;
        i = i + 1;
    }
    proof {
        assert(ints(orig_mags@).subrange(0, n as int) =~= ints(orig_mags@));
        assert((n as int) * (4 * c * c) <= 0x1000000000000000000000000000000)
            by (nonlinear_arith)
            requires
                0 <= (n as int) <= (MAX_LEN as int),
                c == 2 * AMP_LIMIT as int,
                AMP_LIMIT == 70368744177664i64,
                MAX_LEN == 16777216usize,
        ;
    }
    let sr_: u64 = isqrt(rs as u128);
    let so: u64 = isqrt(os as u128);
    proof {
        lemma_sqrt_floor_unique(rs as int, sr_ as int);
        lemma_sqrt_floor_unique(os as int, so as int);
        assert(sr_ as int <= 0x1000000000000000) by (nonlinear_arith)
            requires
                (sr_ as int) * (sr_ as int) <= rs as int,
                rs as int <= 0x1000000000000000000000000000000,
                0 <= sr_ as int,
        ;
    }
    if so == 0 {
        0
    } else {
        let num: i128 = (sr_ as i128) * (FP_ONE as i128);
        crate::fixed::div_i128_clamped(num, so as i128, 0, i64::MAX)
    }
}

/// The degenerate quality result used when no table exists: correlation 0,
/// residual 1, undetermined share 0.
pub fn degenerate_quality() -> (r: QualityMetrics)
    ensures
        r.correlation == 0,
        r.spectral_residual == FP_ONE,
        r.nan_ratio == 0,
{
    QualityMetrics { correlation: 0, spectral_residual: FP_ONE, nan_ratio: 0 }
}

} // verus!
