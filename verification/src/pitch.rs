//! Shared arithmetic on fundamental-frequency and confidence curves: the
//! voiced average, the periodicity measure, and the selection of the
//! analysis domain.

use vstd::prelude::*;
use crate::fixed::FP_ONE;
use crate::fixed::AMP_LIMIT;
use crate::fixed::MAX_LEN;
use crate::fixed::bounded;
use crate::fixed::ints;
use crate::fixed::sum_ints;
use crate::fixed::lemma_sum_ints_push;
use crate::fixed::lemma_div_nn_bound;

verus! {

/// Sum of the strictly positive (voiced) entries of a curve.
pub open spec fn voiced_sum(s: Seq<int>) -> int
    decreases s.len(),
{
    if s.len() == 0 {
        0
    } else {
        voiced_sum(s.drop_last()) + (if s.last() > 0 {
            s.last()
        } else {
            0int
        })
    }
}

/// Number of strictly positive (voiced) entries of a curve.
pub open spec fn voiced_count(s: Seq<int>) -> int
    decreases s.len(),
{
    if s.len() == 0 {
        0
    } else {
        voiced_count(s.drop_last()) + (if s.last() > 0 {
            1int
        } else {
            0int
        })
    }
}

/// The average of the voiced entries (rounded down); meaningful only when
/// at least one entry is voiced.
pub open spec fn voiced_avg(s: Seq<int>) -> int {
    voiced_sum(s) / voiced_count(s)
}

/// Extending a prefix adds its last entry to the voiced sum and count.
pub proof fn lemma_voiced_push(s: Seq<int>, i: int)
    requires
        0 <= i < s.len(),
    ensures
        voiced_sum(s.subrange(0, i + 1)) == voiced_sum(s.subrange(0, i)) + (if s[i] > 0 {
            s[i]
        } else {
            0int
        }),
        voiced_count(s.subrange(0, i + 1)) == voiced_count(s.subrange(0, i)) + (if s[i] > 0 {
            1int
        } else {
            0int
        }),
{
    let a = s.subrange(0, i + 1);
    assert(a.drop_last() =~= s.subrange(0, i));
    assert(a.last() == s[i]);
}

/// The average of the voiced (strictly positive) entries of a curve, or
/// `None` when no entry is voiced.
pub fn average_voiced(curve: &Vec<i64>) -> (r: Option<i64>)
    requires
        curve.len() <= MAX_LEN,
        bounded(curve@, AMP_LIMIT as int),
    ensures
        r is None <==> voiced_count(ints(curve@)) == 0,
        r matches Some(v) ==> {
            &&& v as int == voiced_avg(ints(curve@))
            &&& 0 < v <= AMP_LIMIT
        },
{
    let ghost s = ints(curve@);
    let n = curve.len();
    let mut total: i128 = 0;
    let mut count: i64 = 0;
    let mut i: usize = 0;
    while i < n
        invariant
            i <= n == curve.len() <= MAX_LEN,
            bounded(curve@, AMP_LIMIT as int),
            s == ints(curve@),
            total as int == voiced_sum(s.subrange(0, i as int)),
            count as int == voiced_count(s.subrange(0, i as int)),
            0 <= total as int <= (i as int) * (AMP_LIMIT as int),
            0 <= count <= i as i64,
        decreases n - i,
    {
        let x = curve[i];
        proof {
            lemma_voiced_push(s, i as int);
            assert(s[i as int] == curve@[i as int] as int);
        }
        if x > 0 {
            total = total + (x as i128);
            count = count + 1;
        }
        i = i + 1;
    }
    proof {
        assert(s.subrange(0, n as int) =~= s);
    }
    if count == 0 {
        None
    } else {
        proof {
            assert forall|k: int|
                0 <= k < s.len() implies -(AMP_LIMIT as int) <= #[trigger] s[k] <= AMP_LIMIT
                as int by {
                assert(s[k] == curve@[k] as int);
            }
            lemma_voiced_sum_count(s);
            lemma_voiced_avg_positive(s);
            assert(total as int <= (AMP_LIMIT as int) * (count as int)) by (nonlinear_arith)
                requires
                    voiced_sum(s) <= voiced_count(s) * (AMP_LIMIT as int),
                    total as int == voiced_sum(s),
                    count as int == voiced_count(s),
            ;
            lemma_div_nn_bound(total as int, count as int, AMP_LIMIT as int);
        }
        let avg: i64 = ((total as u128) / (count as u128)) as i64;
        Some(avg)
    }
}

/// Helper carrier: the voiced sum never exceeds the voiced count times the
/// bound of the entries.
pub open spec fn voiced_sum_le_count_times_bound(s: Seq<int>) -> bool {
    voiced_sum(s) <= voiced_count(s) * (AMP_LIMIT as int)
}

/// The voiced sum is at most the voiced count times the entry bound, and at
/// least the voiced count (each voiced entry is at least 1).
pub proof fn lemma_voiced_sum_count(s: Seq<int>)
    requires
        forall|i: int| 0 <= i < s.len() ==> -(AMP_LIMIT as int) <= #[trigger] s[i] <= AMP_LIMIT
            as int,
    ensures
        voiced_sum_le_count_times_bound(s),
        voiced_count(s) <= voiced_sum(s),
    decreases s.len(),
{
    if s.len() == 0 {
    } else {
        let d = s.drop_last();
        assert(forall|i: int|
            0 <= i < d.len() ==> -(AMP_LIMIT as int) <= #[trigger] d[i] <= AMP_LIMIT as int);
        lemma_voiced_sum_count(d);
        if s.last() > 0 {
            assert((voiced_count(d) + 1) * (AMP_LIMIT as int) == voiced_count(d) * (AMP_LIMIT
            as int) + AMP_LIMIT as int) by (nonlinear_arith);
        }
    }
}

/// When some entry is voiced, the voiced average is at least 1.
pub proof fn lemma_voiced_avg_positive(s: Seq<int>)
    requires
        forall|i: int| 0 <= i < s.len() ==> -(AMP_LIMIT as int) <= #[trigger] s[i] <= AMP_LIMIT
            as int,
        voiced_count(s) > 0,
    ensures
        voiced_avg(s) >= 1,
{
    lemma_voiced_sum_count(s);
    assert(voiced_sum(s) / voiced_count(s) >= 1) by (nonlinear_arith)
        requires
            voiced_count(s) > 0,
            voiced_sum(s) >= voiced_count(s),
    ;
}

/// The periodicity of a confidence curve: its mean (rounded down), or 0 for
/// an empty curve.
pub open spec fn periodicity_spec(c: Seq<int>) -> int {
    if c.len() == 0 {
        0
    } else {
        sum_ints(c) / (c.len() as int)
    }
}

/// Mean confidence of a curve of values in [0, 1]; 0 for an empty curve.
pub fn periodicity(confidence: &Vec<i64>) -> (r: i64)
    requires
        confidence.len() <= MAX_LEN,
        forall|i: int| 0 <= i < confidence@.len() ==> 0 <= #[trigger] confidence@[i] <= FP_ONE,
    ensures
        r as int == periodicity_spec(ints(confidence@)),
        0 <= r <= FP_ONE,
{
    let ghost s = ints(confidence@);
    let n = confidence.len();
    if n == 0 {
        return 0;
    }
    let mut total: i64 = 0;
    let mut i: usize = 0;
    while i < n
        invariant
            i <= n == confidence.len() <= MAX_LEN,
            forall|k: int| 0 <= k < confidence@.len() ==> 0 <= #[trigger] confidence@[k] <= FP_ONE,
            s == ints(confidence@),
            total as int == sum_ints(s.subrange(0, i as int)),
            0 <= total as int <= (i as int) * (FP_ONE as int),
        decreases n - i,
    {
        proof {
            lemma_sum_ints_push(s, i as int);
            assert(s[i as int] == confidence@[i as int] as int);
            assert(((i + 1) as int) * (FP_ONE as int) == (i as int) * (FP_ONE as int) + FP_ONE
                as int) by (nonlinear_arith);
        }
        total = total + confidence[i];
        i = i + 1;
    }
    proof {
        assert(s.subrange(0, n as int) =~= s);
        assert(total as int <= (FP_ONE as int) * (n as int)) by (nonlinear_arith)
            requires
                total as int <= (n as int) * (FP_ONE as int),
        ;
        lemma_div_nn_bound(total as int, n as int, FP_ONE as int);
    }
    ((total as u64) / (n as u64)) as i64
}

/// Which domain analyzer handles a signal.
#[derive(Debug, Clone, Copy, PartialEq, Eq, Structural)]
pub enum DomainMode {
    Time,
    Hybrid,
    Frequency,
}

/// Periodicity at or above this (0.6 in Q32) selects the time domain.
pub const PERIODICITY_TIME_MIN: i64 = 2576980378;

/// Periodicity at or above this (0.35 in Q32) selects the hybrid split.
pub const PERIODICITY_HYBRID_MIN: i64 = 1503238554;

/// The domain a given periodicity selects: the boundaries are inclusive, so
/// a periodicity of exactly 0.6 selects Time and exactly 0.35 selects
/// Hybrid; anything lower selects Frequency.
pub open spec fn select_mode_spec(p: int) -> DomainMode {
    if p >= PERIODICITY_TIME_MIN as int {
        DomainMode::Time
    } else if p >= PERIODICITY_HYBRID_MIN as int {
        DomainMode::Hybrid
    } else {
        DomainMode::Frequency
    }
}

/// Select the domain analyzer from the periodicity measure.
pub fn select_mode(periodicity_value: i64) -> (m: DomainMode)
    ensures
        m == select_mode_spec(periodicity_value as int),
{
    if periodicity_value >= PERIODICITY_TIME_MIN {
        DomainMode::Time
    } else if periodicity_value >= PERIODICITY_HYBRID_MIN {
        DomainMode::Hybrid
    } else {
        DomainMode::Frequency
    }
}

/// An all-zero confidence curve has zero periodicity, so (with the
/// boundaries below) it always selects the frequency domain.
pub proof fn lemma_zero_confidence_periodicity(c: Seq<int>)
    requires
        forall|i: int| 0 <= i < c.len() ==> #[trigger] c[i] == 0,
    ensures
        periodicity_spec(c) == 0,
{
    lemma_zero_sum(c);
}

/// The sum of an all-zero sequence is zero.
proof fn lemma_zero_sum(c: Seq<int>)
    requires
        forall|i: int| 0 <= i < c.len() ==> #[trigger] c[i] == 0,
    ensures
        sum_ints(c) == 0,
    decreases c.len(),
{
    if c.len() > 0 {
        let d = c.drop_last();
        assert(forall|i: int| 0 <= i < d.len() ==> #[trigger] d[i] == 0);
        lemma_zero_sum(d);
    }
}

/// Mode selection boundaries: a periodicity of exactly the Time threshold
/// (0.6) selects Time, exactly the Hybrid threshold (0.35) selects Hybrid
/// rather than Frequency, and 0 — the periodicity of an empty confidence
/// curve — selects Frequency. There is no hysteresis.
pub proof fn lemma_mode_boundaries()
    ensures
        select_mode_spec(PERIODICITY_TIME_MIN as int) is Time,
        select_mode_spec(PERIODICITY_HYBRID_MIN as int) is Hybrid,
        select_mode_spec(periodicity_spec(Seq::<int>::empty())) is Frequency,
{
}

} // verus!
