//! The tail of the analysis pipeline: derive the amplitude envelope from
//! the original signal, resample it to the synthesized table, split
//! waveform and envelope at mutually clamped boundaries into core, loop and
//! release sections with a zero-start core fade, and assemble the final
//! analysis result.

use vstd::prelude::*;
use crate::fixed::AMP_LIMIT;
use crate::fixed::MAX_LEN;
use crate::fixed::bounded;
use crate::fixed::subvec;
use crate::segment::amp_envelope;
use crate::segment::resample_envelope;
use crate::segment::segment_bounds;
use crate::segment::apply_core_fade;
use crate::segment::core_end_index;
use crate::segment::release_start_index;
use crate::segment::envelope_len;
use crate::segment::env_at;
use crate::segment::faded_gain;
use crate::segment::ENVELOPE_WINDOW;
use crate::types::AnalysisResult;
use crate::types::AnalyzerError;
use crate::types::QualityMetrics;

verus! {

/// The resampled-envelope sequence the segmenter splits (before the core
/// fade): the envelope of the original signal stretched to length `total`,
/// or a flat envelope of one when the original is empty.
pub open spec fn gain_curve_at(original: Seq<i64>, total: int, i: int) -> int {
    if envelope_len(original.len() as int) == 0 {
        crate::fixed::FP_ONE as int
    } else {
        env_at(envelope_seq(original), total, i)
    }
}

/// The amplitude envelope of the original signal as a sequence.
pub open spec fn envelope_seq(original: Seq<i64>) -> Seq<i64> {
    Seq::new(
        envelope_len(original.len() as int) as nat,
        |k: int| crate::preprocess::rms_spec(
            original.subrange(
                k * (ENVELOPE_WINDOW as int),
                if (k + 1) * (ENVELOPE_WINDOW as int) <= original.len() as int {
                    (k + 1) * (ENVELOPE_WINDOW as int)
                } else {
                    original.len() as int
                },
            ),
        ) as i64,
    )
}

/// Split the synthesized table and the original signal's resampled
/// amplitude envelope into core/loop/release waveform and gain sections.
/// The boundaries come from the two ratios, clamped into [0, 1] and against
/// each other (core end never beyond release start); the core gain starts
/// with a ramp from exactly zero. Fails exactly when no table exists.
pub fn assemble_result(
    original_audio: &Vec<i64>,
    f0_curve: Vec<i64>,
    confidence: Vec<i64>,
    final_tables: Vec<Vec<i64>>,
    core_end_ratio: i64,
    release_start_ratio: i64,
    quality: QualityMetrics,
) -> (r: Result<AnalysisResult, AnalyzerError>)
    requires
        original_audio.len() <= MAX_LEN,
        bounded(original_audio@, AMP_LIMIT as int),
        final_tables.len() <= MAX_LEN,
        forall|t: int| 0 <= t < final_tables@.len() ==> (#[trigger] final_tables@[t]).len()
            <= MAX_LEN,
    ensures
        (final_tables@.len() == 0) <==> r is Err,
        r is Err ==> r == Err::<AnalysisResult, AnalyzerError>(AnalyzerError::SynthesisEmptyResult),
        r matches Ok(res) ==> {
            let total = final_tables@[0].len() as int;
            let ce = core_end_index(total, core_end_ratio as int, release_start_ratio as int);
            let rs = release_start_index(total, core_end_ratio as int, release_start_ratio
                as int);
            let gains = Seq::new(
                total as nat,
                |i: int| gain_curve_at(original_audio@, total, i) as i64,
            );
            &&& res.f0_curve == f0_curve
            &&& res.confidence == confidence
            &&& res.tables == final_tables
            &&& 0 <= ce <= rs <= total
            &&& res.core_wave@ == final_tables@[0]@.subrange(0, ce)
            &&& res.loop_wave@ == final_tables@[0]@.subrange(ce, rs)
            &&& res.release_wave@ == final_tables@[0]@.subrange(rs, total)
            &&& res.core_gain.len() == ce
            &&& res.loop_gain@ == gains.subrange(ce, rs)
            &&& res.release_gain@ == gains.subrange(rs, total)
            &&& forall|i: int|
                0 <= i < ce ==> #[trigger] res.core_gain@[i] as int == faded_gain(
                    gains.subrange(0, ce),
                    i,
                )
            &&& (ce > 0 ==> res.core_gain@[0] == 0)
            &&& res.quality == quality
        },
{
    if final_tables.len() == 0 {
        return Err(AnalyzerError::SynthesisEmptyResult);
    }
    let total = final_tables[0].len();
    let amp_curve = amp_envelope(original_audio);
    proof {
        assert(amp_curve@ =~= envelope_seq(original_audio@));
    }
    let resampled_gain = resample_envelope(&amp_curve, total);
    let ghost gains = Seq::new(
        total as nat,
        |i: int| gain_curve_at(original_audio@, total as int, i) as i64,
    );
    proof {
        assert(resampled_gain@ =~= gains);
    }
    let bounds = segment_bounds(total, core_end_ratio, release_start_ratio);
    let ce = bounds.0;
    let rs = bounds.1;
    let core_wave = subvec(&final_tables[0], 0, ce);
    let loop_wave = subvec(&final_tables[0], ce, rs);
    let release_wave = subvec(&final_tables[0], rs, total);
    let mut core_gain = subvec(&resampled_gain, 0, ce);
    let loop_gain = subvec(&resampled_gain, ce, rs);
    let release_gain = subvec(&resampled_gain, rs, total);
    proof {
        assert(bounded(core_gain@, 2 * AMP_LIMIT as int)) by {
            assert forall|i: int|
                0 <= i < core_gain@.len() implies -(2 * AMP_LIMIT as int)
                <= #[trigger] core_gain@[i] <= 2 * AMP_LIMIT as int by {
                assert(core_gain@[i] == resampled_gain@[i]);
            }
        }
    }
    apply_core_fade(&mut core_gain);
    proof {
        assert(core_gain@.len() == ce);
        assert(loop_gain@ =~= gains.subrange(ce as int, rs as int));
        assert(release_gain@ =~= gains.subrange(rs as int, total as int));
        assert forall|i: int| 0 <= i < ce implies #[trigger] core_gain@[i] as int == faded_gain(
            gains.subrange(0, ce as int),
            i,
        ) by {
            assert(gains.subrange(0, ce as int) =~= resampled_gain@.subrange(0, ce as int));
        }
    }
    Ok(
        AnalysisResult {
            f0_curve,
            confidence,
            tables: final_tables,
            core_wave,
            loop_wave,
            release_wave,
            core_gain,
            loop_gain,
            release_gain,
            quality,
        },
    )
}

} // verus!
