//! The frequency-domain analyzer: average the short-time magnitude spectrum
//! over all frames, rebuild one synthetic spectrum with a single locked
//! phase of -90° for the positive frequencies and Hermitian symmetry for
//! the mirror bins, and turn the caller's inverse transform of it into a
//! peak-normalized wavetable. At -90° the real part of each positive bin is
//! exactly zero and the imaginary part is the negated magnitude, so the
//! synthetic spectrum is exact integer data.

use vstd::prelude::*;
use crate::fixed::FP_ONE;
use crate::fixed::AMP_LIMIT;
use crate::fixed::MAX_LEN;
use crate::fixed::bounded;
use crate::fixed::div_trunc;
use crate::fixed::ints;
use crate::fixed::peak_normalized;
use crate::fixed::peak_normalize;
use crate::fixed::PEAK_EPS;
use crate::fixed::div_trunc_i128;
use crate::fixed::lemma_div_trunc_bound;
use crate::types::AnalyzerError;

verus! {

/// Transform size of the frequency-domain analyzer.
pub const FREQ_FFT_SIZE: usize = 2048;

/// Hop between its frames.
pub const FREQ_HOP_SIZE: usize = 512;

/// Number of distinct bins of the real spectrum.
pub const FREQ_BINS: usize = 1025;

/// Sum of one bin's magnitudes over the first `k` frames.
pub open spec fn col_sum(mags: Seq<Seq<i64>>, k: int, b: int) -> int
    decreases k,
{
    if k <= 0 {
        0
    } else {
        col_sum(mags, k - 1, b) + mags[k - 1][b] as int
    }
}

/// The per-bin average magnitude across all frames.
pub open spec fn avg_mag_spec(mags: Seq<Seq<i64>>, b: int) -> int {
    div_trunc(col_sum(mags, mags.len() as int, b), mags.len() as int)
}

/// Number of analysis frames a signal of `len` samples yields here.
pub open spec fn freq_frame_count(len: int) -> int {
    if len < FREQ_FFT_SIZE as int {
        0
    } else {
        (len - FREQ_FFT_SIZE as int) / (FREQ_HOP_SIZE as int) + 1
    }
}

/// Average the magnitude spectrum over all frames. Fails with a
/// domain-analysis failure when the signal is shorter than the transform
/// (so no frame exists) or the spectrogram is empty.
pub fn freq_avg_spectrum(audio_len: usize, mags: &Vec<Vec<i64>>) -> (r: Result<
    Vec<i64>,
    AnalyzerError,
>)
    requires
        mags.len() <= MAX_LEN,
        mags@.len() as int == freq_frame_count(audio_len as int),
        forall|f: int| 0 <= f < mags@.len() ==> (#[trigger] mags@[f]).len() == FREQ_BINS,
        forall|f: int|
            0 <= f < mags@.len() ==> bounded(#[trigger] mags@[f]@, AMP_LIMIT as int),
        forall|f: int, b: int|
            0 <= f < mags@.len() && 0 <= b < FREQ_BINS ==> 0 <= #[trigger] mags@[f]@[b],
    ensures
        (audio_len < FREQ_FFT_SIZE) <==> r is Err,
        r is Err ==> r == Err::<Vec<i64>, AnalyzerError>(AnalyzerError::DomainAnalysisFailure),
        r matches Ok(avg) ==> {
            &&& avg.len() == FREQ_BINS
            &&& forall|b: int|
                0 <= b < FREQ_BINS ==> #[trigger] avg@[b] as int == avg_mag_spec(
                    views(mags@),
                    b,
                )
            &&& bounded(avg@, AMP_LIMIT as int)
            &&& forall|b: int| 0 <= b < FREQ_BINS ==> 0 <= #[trigger] avg@[b]
        },
{
    if audio_len < FREQ_FFT_SIZE {
        return Err(AnalyzerError::DomainAnalysisFailure);
    }
    let nframes = mags.len();
    if nframes == 0 {
        proof {
            assert(freq_frame_count(audio_len as int) >= 1) by {
                crate::fixed::lemma_div_trunc_nonneg(
                    audio_len as int - FREQ_FFT_SIZE as int,
                    FREQ_HOP_SIZE as int,
                );
            }
        }
        return Err(AnalyzerError::DomainAnalysisFailure);
    }
    let ghost gm = views(mags@);
    let mut avg: Vec<i64> = Vec::new();
    let mut b: usize = 0;
    while b < FREQ_BINS
        invariant
            b <= FREQ_BINS,
            0 < nframes == mags.len() <= MAX_LEN,
            gm == views(mags@),
            forall|f: int| 0 <= f < mags@.len() ==> (#[trigger] mags@[f]).len() == FREQ_BINS,
            forall|f: int|
                0 <= f < mags@.len() ==> bounded(#[trigger] mags@[f]@, AMP_LIMIT as int),
            forall|f: int, bb: int|
                0 <= f < mags@.len() && 0 <= bb < FREQ_BINS ==> 0 <= #[trigger] mags@[f]@[bb],
            avg.len() == b,
            forall|bb: int|
                0 <= bb < b ==> #[trigger] avg@[bb] as int == avg_mag_spec(gm, bb),
            bounded(avg@, AMP_LIMIT as int),
            forall|bb: int| 0 <= bb < b ==> 0 <= #[trigger] avg@[bb],
        decreases FREQ_BINS - b,
    {
        let mut total: i128 = 0;
        let mut f: usize = 0;
        while f < nframes
            invariant
                f <= nframes == mags.len() <= MAX_LEN,
                b < FREQ_BINS,
                gm == views(mags@),
                forall|g: int| 0 <= g < mags@.len() ==> (#[trigger] mags@[g]).len() == FREQ_BINS,
                forall|g: int|
                    0 <= g < mags@.len() ==> bounded(#[trigger] mags@[g]@, AMP_LIMIT as int),
                forall|g: int, bb: int|
                    0 <= g < mags@.len() && 0 <= bb < FREQ_BINS ==> 0 <= #[trigger] mags@[g]@[bb],
                total as int == col_sum(gm, f as int, b as int),
                0 <= total as int <= (f as int) * (AMP_LIMIT as int),
            decreases nframes - f,
        {
            proof {
                assert(gm[f as int] == mags@[f as int]@);
                assert(((f + 1) as int) * (AMP_LIMIT as int) == (f as int) * (AMP_LIMIT as int)
                    + AMP_LIMIT as int) by (nonlinear_arith);
                assert((f as int) * (AMP_LIMIT as int) <= 0x10000000000000000000)
                    by (nonlinear_arith)
                    requires
                        0 <= (f as int) <= (MAX_LEN as int),
                        AMP_LIMIT == 70368744177664i64,
                        MAX_LEN == 16777216usize,
                ;
            }
            total = total + (mags[f][b] as i128);
            f = f + 1;
        }
        proof {
            assert((nframes as int) * (AMP_LIMIT as int) == (AMP_LIMIT as int) * (nframes
            as int)) by (nonlinear_arith);
            assert(-(AMP_LIMIT as int) * (nframes as int) <= 0) by (nonlinear_arith)
                requires
                    0 < nframes,
                    AMP_LIMIT == 70368744177664i64,
            ;
            lemma_div_trunc_bound(total as int, nframes as int, AMP_LIMIT as int);
        }
        let v = div_trunc_i128(total, nframes as i64);
        proof {
            crate::fixed::lemma_div_trunc_nonneg(total as int, nframes as int);
        }
        avg.push(v);
        b = b + 1;
    }
    Ok(avg)
}

/// The views of a sequence of vectors.
pub open spec fn views(frames: Seq<Vec<i64>>) -> Seq<Seq<i64>> {
    frames.map_values(|v: Vec<i64>| v@)
}

/// The synthetic locked-phase spectrum as (real, imaginary) Q32 pairs: bin
/// `i` up to the mirror point is (0, -avg[i]); mirror bin `N-i` is the
/// conjugate (0, avg[i]); the real part is exactly zero everywhere.
pub open spec fn locked_bin_spec(avg: Seq<i64>, i: int) -> (int, int) {
    if i < FREQ_BINS as int {
        (0int, -(avg[i] as int))
    } else {
        (0int, avg[(FREQ_FFT_SIZE as int) - i] as int)
    }
}

/// Build the full synthetic spectrum from the averaged magnitudes.
pub fn locked_phase_spectrum(avg: &Vec<i64>) -> (out: Vec<(i64, i64)>)
    requires
        avg.len() == FREQ_BINS,
        bounded(avg@, AMP_LIMIT as int),
    ensures
        out.len() == FREQ_FFT_SIZE,
        forall|i: int|
            0 <= i < FREQ_FFT_SIZE ==> ((#[trigger] out@[i]).0 as int, out@[i].1 as int)
                == locked_bin_spec(avg@, i),
{
    let mut out: Vec<(i64, i64)> = Vec::new();
    let mut i: usize = 0;
    while i < FREQ_FFT_SIZE
        invariant
            i <= FREQ_FFT_SIZE,
            avg.len() == FREQ_BINS,
            bounded(avg@, AMP_LIMIT as int),
            out.len() == i,
            forall|j: int|
                0 <= j < i ==> ((#[trigger] out@[j]).0 as int, out@[j].1 as int)
                    == locked_bin_spec(avg@, j),
        decreases FREQ_FFT_SIZE - i,
    {
        if i < FREQ_BINS {
            out.push((0, -avg[i]));
        } else {
            out.push((0, avg[FREQ_FFT_SIZE - i]));
        }
        i = i + 1;
    }
    out
}

/// Turn the real parts of the inverse transform into the final wavetable:
/// divide each sample by the transform size, then peak-normalize.
pub fn freq_table_from_ifft(re_parts: &Vec<i64>) -> (out: Vec<i64>)
    requires
        re_parts.len() == FREQ_FFT_SIZE,
        bounded(re_parts@, 4611686018427387904),
    ensures
        out.len() == FREQ_FFT_SIZE,
        ints(out@) == peak_normalized(
            Seq::new(
                re_parts@.len(),
                |i: int| div_trunc(re_parts@[i] as int, FREQ_FFT_SIZE as int) as i64,
            ),
            PEAK_EPS as int,
        ),
        bounded(out@, 4611686018427387904),
        crate::fixed::max_abs(
            Seq::new(
                re_parts@.len(),
                |i: int| div_trunc(re_parts@[i] as int, FREQ_FFT_SIZE as int) as i64,
            ),
        ) > PEAK_EPS as int ==> bounded(out@, FP_ONE as int),
{
    let n = re_parts.len();
    let mut scaled: Vec<i64> = Vec::new();
    let mut i: usize = 0;
    while i < n
        invariant
            i <= n == re_parts.len(),
            bounded(re_parts@, 4611686018427387904),
            scaled.len() == i,
            forall|j: int|
                0 <= j < i ==> #[trigger] scaled@[j] as int == div_trunc(
                    re_parts@[j] as int,
                    FREQ_FFT_SIZE as int,
                ),
            bounded(scaled@, 4611686018427387904),
        decreases n - i,
    {
        let x = re_parts[i];
        proof {
            lemma_div_trunc_bound(x as int, FREQ_FFT_SIZE as int, 4611686018427387904);
        }
        let v: i64 = if x >= 0 {
            ((x as u64) / (FREQ_FFT_SIZE as u64)) as i64
        } else {
            -((((-x) as u64) / (FREQ_FFT_SIZE as u64)) as i64)
        };
        scaled.push(v);
        i = i + 1;
    }
    let out = peak_normalize(&scaled, PEAK_EPS);
    proof {
        assert(scaled@ =~= Seq::new(
            re_parts@.len(),
            |j: int| div_trunc(re_parts@[j] as int, FREQ_FFT_SIZE as int) as i64,
        ));
    }
    out
}

} // verus!
