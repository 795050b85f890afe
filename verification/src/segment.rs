//! The segmenter: derive an amplitude envelope from the original signal,
//! resample it to the synthesized table's length, and split waveform and
//! envelope at identical, mutually clamped boundaries into core, loop and
//! release sections. The first samples of the core envelope are forced into
//! a ramp from exactly zero, so onset is click-free whatever the envelope's
//! initial value.

use vstd::prelude::*;
use crate::fixed::FP_ONE;
use crate::fixed::FP_HALF;
use crate::fixed::AMP_LIMIT;
use crate::fixed::MAX_LEN;
use crate::fixed::bounded;
use crate::fixed::div_trunc;
use crate::fixed::fp_mul_spec;
use crate::fixed::lerp_spec;
use crate::fixed::clamp_spec;
use crate::fixed::fp_round_nn_spec;
use crate::fixed::clamp_i64;
use crate::fixed::fp_mul;
use crate::fixed::lerp;
use crate::fixed::subvec;
use crate::fixed::lemma_div_nn_bound;
use crate::preprocess::rms_spec;

verus! {

/// Window length of the amplitude envelope.
pub const ENVELOPE_WINDOW: usize = 512;

/// Length of the forced zero-start ramp of the core envelope.
pub const CORE_FADE_LEN: usize = 10;

/// Number of envelope windows covering a signal of length `len`.
pub open spec fn envelope_len(len: int) -> int {
    (len + (ENVELOPE_WINDOW as int) - 1) / (ENVELOPE_WINDOW as int)
}

/// The RMS amplitude envelope of the signal over fixed windows (the last
/// window may be short).
pub fn amp_envelope(audio: &Vec<i64>) -> (out: Vec<i64>)
    requires
        audio.len() <= MAX_LEN,
        bounded(audio@, AMP_LIMIT as int),
    ensures
        out.len() == envelope_len(audio@.len() as int),
        forall|k: int|
            0 <= k < out@.len() ==> out@[k] as int == rms_spec(
                audio@.subrange(
                    k * (ENVELOPE_WINDOW as int),
                    if (k + 1) * (ENVELOPE_WINDOW as int) <= audio@.len() as int {
                        (k + 1) * (ENVELOPE_WINDOW as int)
                    } else {
                        audio@.len() as int
                    },
                ),
            ),
        bounded(out@, AMP_LIMIT as int),
{
    let n = audio.len();
    let mut out: Vec<i64> = Vec::new();
    let mut start: usize = 0;
    let mut k: usize = 0;
    while start < n
        invariant
            start == k * ENVELOPE_WINDOW,
            k <= n,
            n == audio.len() <= MAX_LEN,
            bounded(audio@, AMP_LIMIT as int),
            out.len() == k,
            start < n + ENVELOPE_WINDOW,
            forall|j: int|
                0 <= j < k ==> out@[j] as int == rms_spec(
                    audio@.subrange(
                        j * (ENVELOPE_WINDOW as int),
                        if (j + 1) * (ENVELOPE_WINDOW as int) <= audio@.len() as int {
                            (j + 1) * (ENVELOPE_WINDOW as int)
                        } else {
                            audio@.len() as int
                        },
                    ),
                ),
            bounded(out@, AMP_LIMIT as int),
        decreases n - k,
    {
        let end: usize = if start + ENVELOPE_WINDOW <= n {
            start + ENVELOPE_WINDOW
        } else {
            n
        };
        let chunk = subvec(audio, start, end);
        proof {
            assert forall|i: int|
                0 <= i < chunk@.len() implies -(AMP_LIMIT as int) <= #[trigger] chunk@[i]
                <= AMP_LIMIT as int by {
                assert(chunk@[i] == audio@[start as int + i]);
            }
        }
        let r = crate::preprocess::measure_rms(&chunk);
        out.push(r);
        proof {
            assert((k + 1) * (ENVELOPE_WINDOW as int) == k * (ENVELOPE_WINDOW as int)
                + ENVELOPE_WINDOW as int) by (nonlinear_arith);
        }
        start = start + ENVELOPE_WINDOW;
        k = k + 1;
    }
    proof {
        assert(out@.len() as int == envelope_len(n as int)) by {
            if n == 0 {
            } else {
                assert(start == k * (ENVELOPE_WINDOW as int));
                assert(n <= start < n + ENVELOPE_WINDOW);
                assert((n as int + ENVELOPE_WINDOW as int - 1) / (ENVELOPE_WINDOW as int) == k
                    as int) by (nonlinear_arith)
                    requires
                        start == (k as int) * (ENVELOPE_WINDOW as int),
                        n as int <= start < n as int + ENVELOPE_WINDOW as int,
                        ENVELOPE_WINDOW == 512usize,
                        k >= 1,
                ;
            }
        }
    }
    out
}

/// One sample of the envelope resampled to length `total`: linear
/// interpolation at the proportional position, with the upper neighbor
/// clamped to the last entry.
pub open spec fn env_at(amp: Seq<i64>, total: int, i: int) -> int {
    let idx = div_trunc(i * (amp.len() as int) * (FP_ONE as int), total);
    let i0 = idx / (FP_ONE as int);
    let i1 = if i0 + 1 < amp.len() as int {
        i0 + 1
    } else {
        (amp.len() as int) - 1
    };
    lerp_spec(amp[i0] as int, amp[i1] as int, idx % (FP_ONE as int))
}

/// Resample the amplitude envelope to the synthesized table's length. An
/// empty envelope (with a nonzero target) yields a flat envelope of one.
pub fn resample_envelope(amp: &Vec<i64>, total: usize) -> (out: Vec<i64>)
    requires
        amp.len() <= MAX_LEN,
        bounded(amp@, AMP_LIMIT as int),
        total <= MAX_LEN,
    ensures
        out.len() == total,
        amp.len() == 0 ==> forall|i: int| 0 <= i < total ==> #[trigger] out@[i] == FP_ONE,
        amp.len() > 0 ==> forall|i: int|
            0 <= i < total ==> #[trigger] out@[i] as int == env_at(amp@, total as int, i),
        bounded(out@, 2 * AMP_LIMIT as int),
{
    let n = amp.len();
    let mut out: Vec<i64> = Vec::new();
    if n == 0 {
        let mut i: usize = 0;
        while i < total
            invariant
                i <= total,
                out.len() == i,
                forall|j: int| 0 <= j < i ==> #[trigger] out@[j] == FP_ONE,
                bounded(out@, 2 * AMP_LIMIT as int),
            decreases total - i,
        {
            out.push(FP_ONE);
            i = i + 1;
        }
        return out;
    }
    let mut i: usize = 0;
    while i < total
        invariant
            i <= total <= MAX_LEN,
            0 < n == amp.len() <= MAX_LEN,
            bounded(amp@, AMP_LIMIT as int),
            out.len() == i,
            forall|j: int|
                0 <= j < i ==> #[trigger] out@[j] as int == env_at(amp@, total as int, j),
            bounded(out@, 2 * AMP_LIMIT as int),
        decreases total - i,
    {
        proof {
            let p = (i as int) * (n as int) * (FP_ONE as int);
            vstd::arithmetic::mul::lemma_mul_nonnegative(i as int, n as int);
            vstd::arithmetic::mul::lemma_mul_nonnegative((i as int) * (n as int), FP_ONE as int);
            assert((i as int) * (n as int) <= (MAX_LEN as int) * (MAX_LEN as int))
                by (nonlinear_arith)
                requires
                    0 <= (i as int) <= (MAX_LEN as int),
                    0 <= (n as int) <= (MAX_LEN as int),
            ;
            vstd::arithmetic::div_mod::lemma_fundamental_div_mod(p, total as int);
            vstd::arithmetic::div_mod::lemma_mod_bound(p, total as int);
            assert(p < ((n as int) * (FP_ONE as int)) * (total as int)) by (nonlinear_arith)
                requires
                    p == (i as int) * (n as int) * (FP_ONE as int),
                    0 <= (i as int) < (total as int),
                    1 <= (n as int),
                    FP_ONE == 4294967296i64,
            ;
            assert(p / (total as int) < (n as int) * (FP_ONE as int)) by (nonlinear_arith)
                requires
                    p == (total as int) * (p / (total as int)) + p % (total as int),
                    0 <= p % (total as int),
                    p < ((n as int) * (FP_ONE as int)) * (total as int),
                    (total as int) > 0,
            ;
            lemma_div_nn_bound(p, total as int, (n as int) * (FP_ONE as int));
            assert((n as int) * (FP_ONE as int) <= (MAX_LEN as int) * (FP_ONE as int))
                by (nonlinear_arith)
                requires
                    0 <= (n as int) <= (MAX_LEN as int),
            ;
        }
        let pw: u128 = (i as u128) * (n as u128) * (FP_ONE as u128);
        let idx: i64 = (pw / (total as u128)) as i64;
        let i0u: i64 = idx / FP_ONE;
        proof {
            vstd::arithmetic::div_mod::lemma_fundamental_div_mod(idx as int, FP_ONE as int);
            vstd::arithmetic::div_mod::lemma_mod_bound(idx as int, FP_ONE as int);
        }
        let i0: usize = i0u as usize;
        let f: i64 = idx - i0u * FP_ONE;
        let i1: usize = if i0 + 1 < n {
            i0 + 1
        } else {
            n - 1
        };
        let v = lerp(amp[i0], amp[i1], f);
        out.push(v);
        i = i + 1;
    }
    out
}

/// A ratio clamped into [0, 1].
pub open spec fn clamped_ratio(r: int) -> int {
    clamp_spec(r, 0, FP_ONE as int)
}

/// The rounded boundary index a clamped ratio selects in a table of length
/// `total`.
pub open spec fn ratio_index(total: int, r: int) -> int {
    fp_round_nn_spec(total * clamped_ratio(r))
}

/// The post-clamp core end: never beyond the release start.
pub open spec fn core_end_index(total: int, core_ratio: int, release_ratio: int) -> int {
    let c = ratio_index(total, core_ratio);
    let r = ratio_index(total, release_ratio);
    if c <= r {
        c
    } else {
        r
    }
}

/// The post-clamp release start: never before the core end.
pub open spec fn release_start_index(total: int, core_ratio: int, release_ratio: int) -> int {
    let c = ratio_index(total, core_ratio);
    let r = ratio_index(total, release_ratio);
    if c <= r {
        r
    } else {
        c
    }
}

/// For every ratio pair — inverted pairs included — the post-clamp core end
/// never exceeds the post-clamp release start, and both boundaries lie
/// within the table.
pub proof fn lemma_segment_bounds_ordered(total: int, core_ratio: int, release_ratio: int)
    requires
        0 <= total,
    ensures
        0 <= core_end_index(total, core_ratio, release_ratio) <= release_start_index(
            total,
            core_ratio,
            release_ratio,
        ) <= total,
{
    lemma_ratio_index_in_table(total, core_ratio);
    lemma_ratio_index_in_table(total, release_ratio);
}

/// A clamped-ratio boundary index lies within the table.
pub proof fn lemma_ratio_index_in_table(total: int, r: int)
    requires
        0 <= total,
    ensures
        0 <= ratio_index(total, r) <= total,
{
    let c = clamped_ratio(r);
    assert(0 <= total * c <= total * (FP_ONE as int)) by (nonlinear_arith)
        requires
            0 <= c <= FP_ONE as int,
            0 <= total,
    ;
    assert(0 <= (total * c + FP_HALF as int) / (FP_ONE as int) <= total) by (nonlinear_arith)
        requires
            0 <= total * c <= total * (FP_ONE as int),
            0 <= total,
            FP_ONE == 4294967296i64,
            FP_HALF == 2147483648i64,
    ;
}

/// Compute the two section boundaries from the raw ratios: each ratio is
/// clamped into [0, 1], scaled to the table, rounded, and the pair is
/// clamped against each other so the core always ends at or before the
/// release start.
pub fn segment_bounds(total: usize, core_end_ratio: i64, release_start_ratio: i64) -> (r: (
    usize,
    usize,
))
    requires
        total <= MAX_LEN,
    ensures
        r.0 as int == core_end_index(total as int, core_end_ratio as int, release_start_ratio
            as int),
        r.1 as int == release_start_index(
            total as int,
            core_end_ratio as int,
            release_start_ratio as int,
        ),
        r.0 <= r.1 <= total,
{
    proof {
        lemma_segment_bounds_ordered(
            total as int,
            core_end_ratio as int,
            release_start_ratio as int,
        );
        lemma_ratio_index_in_table(total as int, core_end_ratio as int);
        lemma_ratio_index_in_table(total as int, release_start_ratio as int);
    }
    let cr = clamp_i64(core_end_ratio, 0, FP_ONE);
    let rr = clamp_i64(release_start_ratio, 0, FP_ONE);
    let ci: usize = (((total as u64) * (cr as u64) + (FP_HALF as u64)) / (FP_ONE as u64)) as usize;
    let ri: usize = (((total as u64) * (rr as u64) + (FP_HALF as u64)) / (FP_ONE as u64)) as usize;
    proof {
        assert((total as int) * (cr as int) <= (MAX_LEN as int) * (FP_ONE as int))
            by (nonlinear_arith)
            requires
                0 <= (total as int) <= (MAX_LEN as int),
                0 <= cr <= FP_ONE,
        ;
        assert((total as int) * (rr as int) <= (MAX_LEN as int) * (FP_ONE as int))
            by (nonlinear_arith)
            requires
                0 <= (total as int) <= (MAX_LEN as int),
                0 <= rr <= FP_ONE,
        ;
    }
    if ci <= ri {
        (ci, ri)
    } else {
        (ri, ci)
    }
}

/// Force the start of the core envelope into a linear ramp from exactly
/// zero over the first `CORE_FADE_LEN` samples (or the whole envelope if it
/// is shorter): sample `i` is scaled by i/fade and the very first sample is
/// set to zero outright.
pub fn apply_core_fade(core_gain: &mut Vec<i64>)
    requires
        old(core_gain).len() <= MAX_LEN,
        bounded(old(core_gain)@, 2 * AMP_LIMIT as int),
    ensures
        final(core_gain).len() == old(core_gain).len(),
        final(core_gain)@.len() > 0 ==> final(core_gain)@[0] == 0,
        forall|i: int|
            0 <= i < final(core_gain)@.len() ==> final(core_gain)@[i] as int == faded_gain(
                old(core_gain)@,
                i,
            ),
        bounded(final(core_gain)@, 2 * AMP_LIMIT as int),
{
    let n = core_gain.len();
    if n == 0 {
        return ;
    }
    let fade_len: usize = if n < CORE_FADE_LEN {
        n
    } else {
        CORE_FADE_LEN
    };
    let mut i: usize = 0;
    while i < fade_len
        invariant
            i <= fade_len <= n == core_gain.len() <= MAX_LEN,
            core_gain.len() == old(core_gain).len(),
            fade_len == (if n < CORE_FADE_LEN {
                n
            } else {
                CORE_FADE_LEN
            }),
            n > 0,
            bounded(old(core_gain)@, 2 * AMP_LIMIT as int),
            forall|j: int|
                i <= j < n ==> #[trigger] core_gain@[j] == old(core_gain)@[j],
            forall|j: int|
                0 <= j < i ==> #[trigger] core_gain@[j] as int == faded_gain(old(core_gain)@, j),
            bounded(core_gain@, 2 * AMP_LIMIT as int),
        decreases fade_len - i,
    {
        if i == 0 {
            core_gain[0] = 0;
        } else {
            let t: i64 = (((i as u64) * 4294967296u64) / (fade_len as u64)) as i64;
            proof {
                assert(core_gain@[i as int] == old(core_gain)@[i as int]);
                lemma_div_nn_bound(
                    (i as int) * (FP_ONE as int),
                    fade_len as int,
                    FP_ONE as int,
                );
                assert((i as int) * (FP_ONE as int) <= (FP_ONE as int) * (fade_len as int))
                    by (nonlinear_arith)
                    requires
                        0 <= (i as int) <= (fade_len as int),
                ;
                lemma_fp_mul_frac(core_gain@[i as int] as int, t as int);
            }
            let v = fp_mul(core_gain[i], t);
            core_gain[i] = v;
            proof {
                assert(core_gain@[i as int] as int == faded_gain(old(core_gain)@, i as int));
            }
        }
        i = i + 1;
    }
}

/// The faded core envelope value at index `i`.
pub open spec fn faded_gain(g: Seq<i64>, i: int) -> int {
    let fade = if (g.len() as int) < CORE_FADE_LEN as int {
        g.len() as int
    } else {
        CORE_FADE_LEN as int
    };
    if i == 0 {
        0
    } else if i < fade {
        fp_mul_spec(g[i] as int, div_trunc(i * (FP_ONE as int), fade))
    } else {
        g[i] as int
    }
}

/// A product with a factor in [0, 1] keeps the other factor's bound.
proof fn lemma_fp_mul_frac(a: int, t: int)
    requires
        -(2 * AMP_LIMIT as int) <= a <= 2 * AMP_LIMIT as int,
        0 <= t <= FP_ONE as int,
    ensures
        -(2 * AMP_LIMIT as int) <= fp_mul_spec(a, t) <= 2 * AMP_LIMIT as int,
{
    crate::fixed::lemma_fp_mul_bound(
        a,
        t,
        2 * AMP_LIMIT as int,
        FP_ONE as int,
        2 * AMP_LIMIT as int,
    );
}

} // verus!
