//! Q32 fixed-point arithmetic: the common scale, exact multiply / divide /
//! square-root helpers, and the bound lemmas the rest of the crate leans on.

use vstd::prelude::*;

verus! {

/// Scale of the Q32 fixed-point format: this integer stands for 1.0.
pub const FP_ONE: i64 = 4294967296;

/// Half of `FP_ONE`; used for round-to-nearest.
pub const FP_HALF: i64 = 2147483648;

/// Largest sample magnitude the processing functions accept (2^46, an
/// amplitude of 16384.0). Keeps every product of two bounded values, and
/// every sum of squares over `MAX_LEN` samples, inside `i128`.
pub const AMP_LIMIT: i64 = 70368744177664;

/// Largest buffer length the processing functions accept (2^24 samples).
pub const MAX_LEN: usize = 16777216;

/// Division truncating toward zero, the rounding of the executable code.
pub open spec fn div_trunc(p: int, q: int) -> int {
    if p >= 0 {
        p / q
    } else {
        -((-p) / q)
    }
}

/// Product of two Q32 values, rescaled back to Q32.
pub open spec fn fp_mul_spec(a: int, b: int) -> int {
    div_trunc(a * b, FP_ONE as int)
}

/// Quotient of two Q32 values as a Q32 value (divisor must be positive).
pub open spec fn fp_div_spec(a: int, b: int) -> int {
    div_trunc(a * (FP_ONE as int), b)
}

/// `v` fits in an `i64`.
pub open spec fn in_i64(v: int) -> bool {
    i64::MIN as int <= v <= i64::MAX as int
}

/// Every element of `s` has magnitude at most `b`.
pub open spec fn bounded(s: Seq<i64>, b: int) -> bool {
    forall|i: int| 0 <= i < s.len() ==> -b <= #[trigger] s[i] <= b
}

/// Linear interpolation between `a` and `b` at fraction `f` of `FP_ONE`,
/// with each of the two products rounded separately, as the engine computes it.
pub open spec fn lerp_spec(a: int, b: int, f: int) -> int {
    fp_mul_spec(a, FP_ONE as int - f) + fp_mul_spec(b, f)
}

/// `r` is the integer square root (rounded down) of `x`.
pub open spec fn is_sqrt_floor(x: int, r: int) -> bool {
    &&& 0 <= r
    &&& r * r <= x
    &&& x < (r + 1) * (r + 1)
}

/// The integer square root of a nonnegative `x`.
pub open spec fn sqrt_floor(x: int) -> int {
    choose|r: int| is_sqrt_floor(x, r)
}

/// The integer square root is unique, so `sqrt_floor` names it.
pub proof fn lemma_sqrt_floor_unique(x: int, r: int)
    requires
        is_sqrt_floor(x, r),
    ensures
        sqrt_floor(x) == r,
{
    assert(exists|s: int| is_sqrt_floor(x, s)) by {
        assert(is_sqrt_floor(x, r));
    }
    let s = sqrt_floor(x);
    assert(is_sqrt_floor(x, s));
    assert(s == r) by (nonlinear_arith)
        requires
            is_sqrt_floor(x, s),
            is_sqrt_floor(x, r),
    ;
}

/// A quotient is no larger in magnitude than any multiple-of-the-divisor
/// bound on the dividend.
pub proof fn lemma_div_trunc_bound(p: int, q: int, m: int)
    requires
        q > 0,
        0 <= m,
        -m * q <= p <= m * q,
    ensures
        -m <= div_trunc(p, q) <= m,
{
    if p >= 0 {
        assert(0 <= p / q <= m) by (nonlinear_arith)
            requires
                q > 0,
                0 <= m,
                0 <= p <= m * q,
        ;
    } else {
        assert(0 <= (-p) / q <= m) by (nonlinear_arith)
            requires
                q > 0,
                0 <= m,
                p < 0,
                -m * q <= p,
        ;
    }
}

/// A truncating quotient of nonnegative operands is nonnegative.
pub proof fn lemma_div_trunc_nonneg(p: int, q: int)
    requires
        0 <= p,
        0 < q,
    ensures
        0 <= div_trunc(p, q),
{
    assert(0 <= p / q) by (nonlinear_arith)
        requires
            0 <= p,
            0 < q,
    ;
}

/// A quotient of nonnegative operands never exceeds its dividend.
pub proof fn lemma_div_nn_le(p: int, q: int)
    requires
        0 <= p,
        0 < q,
    ensures
        0 <= div_trunc(p, q) <= p,
{
    assert(0 <= p / q <= p) by (nonlinear_arith)
        requires
            0 <= p,
            0 < q,
    ;
}

/// A quotient of nonnegative operands is at most any `m` with `p <= m * q`.
pub proof fn lemma_div_nn_bound(p: int, q: int, m: int)
    requires
        0 < q,
        0 <= p,
        p <= m * q,
    ensures
        0 <= div_trunc(p, q) <= m,
{
    assert(0 <= p / q <= m) by (nonlinear_arith)
        requires
            0 < q,
            0 <= p,
            p <= m * q,
    ;
}

/// Exact Q32 multiply; the product is formed in `i128`, so only the final
/// value must fit an `i64`.
pub fn fp_mul(a: i64, b: i64) -> (r: i64)
    requires
        in_i64(fp_mul_spec(a as int, b as int)),
    ensures
        r as int == fp_mul_spec(a as int, b as int),
{
    let p: i128 = (a as i128) * (b as i128);
    if p >= 0 {
        let q: u128 = (p as u128) / (FP_ONE as u128);
        q as i64
    } else {
        let m: u128 = ((-p) as u128) / (FP_ONE as u128);
        (-(m as i128)) as i64
    }
}

/// Exact Q32 divide by a positive divisor.
pub fn fp_div(a: i64, b: i64) -> (r: i64)
    requires
        b > 0,
        in_i64(fp_div_spec(a as int, b as int)),
    ensures
        r as int == fp_div_spec(a as int, b as int),
{
    let p: i128 = (a as i128) * (FP_ONE as i128);
    if p >= 0 {
        let q: u128 = (p as u128) / (b as u128);
        q as i64
    } else {
        let m: u128 = ((-p) as u128) / (b as u128);
        (-(m as i128)) as i64
    }
}

/// Integer square root of a `u128`, rounded down.
pub fn isqrt(x: u128) -> (r: u64)
    ensures
        is_sqrt_floor(x as int, r as int),
        r as int == sqrt_floor(x as int),
{
    let mut lo: u128 = 0;
    let mut hi: u128 = 18446744073709551616;
    proof {
        assert((hi as int) * (hi as int) > x as int) by (nonlinear_arith)
            requires
                hi == 18446744073709551616u128,
                x <= u128::MAX,
        ;
    }
    while hi - lo > 1
        invariant
            lo < hi <= 18446744073709551616u128,
            (lo as int) * (lo as int) <= x as int,
            (hi as int) * (hi as int) > x as int,
        decreases hi - lo,
    {
        let mid: u128 = lo + (hi - lo) / 2;
        proof {
            assert((mid as int) * (mid as int) < 0x100000000000000000000000000000000) by (nonlinear_arith)
                requires
                    mid < 18446744073709551616u128,
            ;
        }
        if mid * mid <= x {
            lo = mid;
        } else {
            hi = mid;
        }
    }
    proof {
        assert(hi == lo + 1);
        lemma_sqrt_floor_unique(x as int, lo as int);
    }
    lo as u64
}

/// Linear interpolation between two bounded Q32 values at a fraction of one.
pub fn lerp(a: i64, b: i64, f: i64) -> (r: i64)
    requires
        0 <= f <= FP_ONE,
        -AMP_LIMIT <= a <= AMP_LIMIT,
        -AMP_LIMIT <= b <= AMP_LIMIT,
    ensures
        r as int == lerp_spec(a as int, b as int, f as int),
        -2 * AMP_LIMIT <= r <= 2 * AMP_LIMIT,
{
    proof {
        lemma_lerp_terms_bounded(a as int, b as int, f as int);
    }
    let x = fp_mul(a, FP_ONE - f);
    let y = fp_mul(b, f);
    x + y
}

/// Both products inside `lerp_spec` stay within the bound of their factors.
pub proof fn lemma_lerp_terms_bounded(a: int, b: int, f: int)
    requires
        0 <= f <= FP_ONE as int,
        -AMP_LIMIT as int <= a <= AMP_LIMIT as int,
        -AMP_LIMIT as int <= b <= AMP_LIMIT as int,
    ensures
        -AMP_LIMIT as int <= fp_mul_spec(a, FP_ONE as int - f) <= AMP_LIMIT as int,
        -AMP_LIMIT as int <= fp_mul_spec(b, f) <= AMP_LIMIT as int,
        in_i64(fp_mul_spec(a, FP_ONE as int - f)),
        in_i64(fp_mul_spec(b, f)),
{
    let q = FP_ONE as int;
    let m = AMP_LIMIT as int;
    assert(-m * q <= a * (q - f) <= m * q) by (nonlinear_arith)
        requires
            0 <= q - f <= q,
            -m <= a <= m,
            q == FP_ONE as int,
            m == AMP_LIMIT as int,
    ;
    assert(-m * q <= b * f <= m * q) by (nonlinear_arith)
        requires
            0 <= f <= q,
            -m <= b <= m,
            q == FP_ONE as int,
            m == AMP_LIMIT as int,
    ;
    lemma_div_trunc_bound(a * (q - f), q, m);
    lemma_div_trunc_bound(b * f, q, m);
}

/// A fixed-point product of values bounded by `ba` and `bb` is bounded by
/// `ba * bb / FP_ONE` rounded up; this coarser, always-sufficient form says
/// it is bounded by `ba * bb` divided by the scale when the bounds multiply
/// out to a multiple of the scale.
pub proof fn lemma_fp_mul_bound(a: int, b: int, ba: int, bb: int, m: int)
    requires
        0 <= ba,
        0 <= bb,
        -ba <= a <= ba,
        -bb <= b <= bb,
        ba * bb <= m * (FP_ONE as int),
        0 <= m,
    ensures
        -m <= fp_mul_spec(a, b) <= m,
        in_i64(fp_mul_spec(a, b)) || m > i64::MAX as int,
{
    let q = FP_ONE as int;
    assert(-(m * q) <= a * b <= m * q) by (nonlinear_arith)
        requires
            0 <= ba,
            0 <= bb,
            -ba <= a <= ba,
            -bb <= b <= bb,
            ba * bb <= m * q,
    ;
    lemma_div_trunc_bound(a * b, q, m);
}

/// An element-for-element copy of a vector.
pub fn copy_vec(v: &Vec<i64>) -> (out: Vec<i64>)
    ensures
        out@ == v@,
{
    let n = v.len();
    let mut out: Vec<i64> = Vec::new();
    let mut i: usize = 0;
    while i < n
        invariant
            i <= n == v.len(),
            out@ =~= v@.subrange(0, i as int),
        decreases n - i,
    {
        out.push(v[i]);
        i = i + 1;
    }
    proof {
        assert(out@ =~= v@);
    }
    out
}

/// A copy of the elements of `v` from index `a` (inclusive) to `b`
/// (exclusive).
pub fn subvec(v: &Vec<i64>, a: usize, b: usize) -> (out: Vec<i64>)
    requires
        a <= b <= v.len(),
    ensures
        out@ == v@.subrange(a as int, b as int),
{
    let mut out: Vec<i64> = Vec::new();
    let mut i: usize = a;
    while i < b
        invariant
            a <= i <= b <= v.len(),
            out@ =~= v@.subrange(a as int, i as int),
        decreases b - i,
    {
        out.push(v[i]);
        i = i + 1;
    }
    proof {
        assert(out@ =~= v@.subrange(a as int, b as int));
    }
    out
}

/// Euclidean remainder of `v` by a positive modulus `m`.
pub fn rem_euclid_i64(v: i64, m: i64) -> (r: i64)
    requires
        0 < m,
        (i64::MIN as int) < (v as int),
    ensures
        r as int == (v as int) % (m as int),
        0 <= r < m,
{
    if v >= 0 {
        ((v as u64) % (m as u64)) as i64
    } else {
        let t: i64 = (((-v) as u64) % (m as u64)) as i64;
        proof {
            let vi = v as int;
            let mi = m as int;
            vstd::arithmetic::div_mod::lemma_fundamental_div_mod(-vi, mi);
            let q = (-vi) / mi;
            if t == 0 {
                assert(vi == mi * (-q) + 0) by {
                    assert(-vi == mi * q + (t as int));
                    assert(mi * (-q) == -(mi * q)) by (nonlinear_arith);
                }
                vstd::arithmetic::div_mod::lemma_mod_multiples_vanish(-q, 0, mi);
                vstd::arithmetic::div_mod::lemma_small_mod(0nat, mi as nat);
            } else {
                assert(vi == mi * (-q - 1) + (mi - t as int)) by {
                    assert(-vi == mi * q + (t as int));
                    assert(mi * (-q - 1) == -(mi * q) - mi) by (nonlinear_arith);
                }
                vstd::arithmetic::div_mod::lemma_mod_multiples_vanish(-q - 1, mi - t as int, mi);
                vstd::arithmetic::div_mod::lemma_small_mod((mi - t as int) as nat, mi as nat);
            }
        }
        if t == 0 {
            0
        } else {
            m - t
        }
    }
}

/// `a * b / c` on nonnegative operands, with the product formed in `u128`.
pub fn mul_div_nn(a: i64, b: i64, c: i64) -> (r: i64)
    requires
        0 <= a,
        0 <= b,
        0 < c,
        (a as int) * (b as int) / (c as int) <= i64::MAX as int,
    ensures
        r as int == (a as int) * (b as int) / (c as int),
{
    proof {
        assert((a as int) * (b as int) <= u128::MAX as int) by (nonlinear_arith)
            requires
                0 <= a <= i64::MAX,
                0 <= b <= i64::MAX,
        ;
    }
    let p: u128 = (a as u128) * (b as u128);
    (p / (c as u128)) as i64
}

/// Truncating division of an `i128` by a positive divisor, when the
/// quotient fits an `i64`.
pub fn div_trunc_i128(p: i128, q: i64) -> (r: i64)
    requires
        0 < q,
        (i128::MIN as int) < (p as int),
        in_i64(div_trunc(p as int, q as int)),
    ensures
        r as int == div_trunc(p as int, q as int),
{
    if p >= 0 {
        ((p as u128) / (q as u128)) as i64
    } else {
        let m: u128 = ((-p) as u128) / (q as u128);
        (-(m as i128)) as i64
    }
}

/// The elements of `s` as unbounded integers.
pub open spec fn ints(s: Seq<i64>) -> Seq<int> {
    s.map_values(|v: i64| v as int)
}

/// Sum of the squares of a sequence of integers.
pub open spec fn sum_sq(s: Seq<int>) -> int
    decreases s.len(),
{
    if s.len() == 0 {
        0
    } else {
        sum_sq(s.drop_last()) + s.last() * s.last()
    }
}

/// Extending a prefix by one element adds that element's square.
pub proof fn lemma_sum_sq_push(s: Seq<int>, i: int)
    requires
        0 <= i < s.len(),
    ensures
        sum_sq(s.subrange(0, i + 1)) == sum_sq(s.subrange(0, i)) + s[i] * s[i],
{
    let a = s.subrange(0, i + 1);
    assert(a.drop_last() =~= s.subrange(0, i));
    assert(a.last() == s[i]);
}

/// A peak below this (about 1e-6 in Q32) skips peak normalization.
pub const PEAK_EPS: i64 = 4295;

/// Absolute value of an integer.
pub open spec fn abs_int(v: int) -> int {
    if v < 0 {
        -v
    } else {
        v
    }
}

/// The largest absolute sample value of a sequence.
pub open spec fn max_abs(s: Seq<i64>) -> int
    decreases s.len(),
{
    if s.len() == 0 {
        0
    } else {
        let m = max_abs(s.drop_last());
        if abs_int(s.last() as int) > m {
            abs_int(s.last() as int)
        } else {
            m
        }
    }
}

/// The peak bounds every element, and is itself nonnegative.
pub proof fn lemma_max_abs_ge(s: Seq<i64>)
    ensures
        0 <= max_abs(s),
        forall|i: int| 0 <= i < s.len() ==> abs_int(#[trigger] s[i] as int) <= max_abs(s),
    decreases s.len(),
{
    if s.len() == 0 {
    } else {
        lemma_max_abs_ge(s.drop_last());
        assert(forall|i: int| 0 <= i < s.len() - 1 ==> s.drop_last()[i] == s[i]);
    }
}

/// Extending a prefix updates the peak with the new element.
pub proof fn lemma_max_abs_push(s: Seq<i64>, i: int)
    requires
        0 <= i < s.len(),
    ensures
        max_abs(s.subrange(0, i + 1)) == (if abs_int(s[i] as int) > max_abs(s.subrange(0, i)) {
            abs_int(s[i] as int)
        } else {
            max_abs(s.subrange(0, i))
        }),
{
    let a = s.subrange(0, i + 1);
    assert(a.drop_last() =~= s.subrange(0, i));
    assert(a.last() == s[i]);
}

/// The sequence after peak normalization: each sample divided by the peak
/// (as a Q32 ratio), or unchanged when the peak is at most `eps`.
pub open spec fn peak_normalized(s: Seq<i64>, eps: int) -> Seq<int> {
    if max_abs(s) > eps {
        Seq::new(s.len(), |i: int| div_trunc((s[i] as int) * (FP_ONE as int), max_abs(s)))
    } else {
        ints(s)
    }
}

/// Scale a table so its largest absolute sample becomes one, exactly as Q32
/// arithmetic; a table whose peak is at most `eps` (near-silence) is
/// returned unchanged. The result is bounded by one whenever scaling
/// happened.
pub fn peak_normalize(v: &Vec<i64>, eps: i64) -> (out: Vec<i64>)
    requires
        v.len() <= MAX_LEN,
        bounded(v@, 4611686018427387904),
        0 < eps,
    ensures
        out.len() == v.len(),
        ints(out@) == peak_normalized(v@, eps as int),
        max_abs(v@) > eps as int ==> bounded(out@, FP_ONE as int),
        max_abs(v@) <= eps as int ==> out@ == v@,
{
    let ghost s = v@;
    let n = v.len();
    let mut peak: i64 = 0;
    let mut i: usize = 0;
    while i < n
        invariant
            i <= n == v.len(),
            bounded(v@, 4611686018427387904),
            s == v@,
            peak as int == max_abs(s.subrange(0, i as int)),
            0 <= peak <= 4611686018427387904,
        decreases n - i,
    {
        proof {
            lemma_max_abs_push(s, i as int);
        }
        let x = v[i];
        let a: i64 = if x < 0 {
            -x
        } else {
            x
        };
        if a > peak {
            peak = a;
        }
        i = i + 1;
    }
    proof {
        assert(s.subrange(0, n as int) =~= s);
        lemma_max_abs_ge(s);
    }
    if peak <= eps {
        let out = copy_vec(v);
        proof {
            assert(ints(out@) =~= peak_normalized(v@, eps as int));
        }
        return out;
    }
    let mut out: Vec<i64> = Vec::new();
    let mut i: usize = 0;
    while i < n
        invariant
            i <= n == v.len(),
            bounded(v@, 4611686018427387904),
            s == v@,
            peak as int == max_abs(s),
            eps < peak,
            0 < eps,
            out.len() == i,
            forall|j: int|
                0 <= j < i ==> #[trigger] out@[j] as int == div_trunc(
                    (s[j] as int) * (FP_ONE as int),
                    peak as int,
                ),
            bounded(out@, FP_ONE as int),
        decreases n - i,
    {
        let x = v[i];
        proof {
            lemma_max_abs_ge(s);
            assert(abs_int(x as int) <= peak as int);
            assert(-((FP_ONE as int) * (peak as int)) <= (x as int) * (FP_ONE as int) <= (FP_ONE
            as int) * (peak as int)) by (nonlinear_arith)
                requires
                    abs_int(x as int) <= peak as int,
                    FP_ONE == 4294967296i64,
            ;
            lemma_div_trunc_bound(
                (x as int) * (FP_ONE as int),
                peak as int,
                FP_ONE as int,
            );
        }
        let p: i128 = (x as i128) * (FP_ONE as i128);
        let q = div_trunc_i128(p, peak);
        out.push(q);
        i = i + 1;
    }
    proof {
        assert(ints(out@) =~= peak_normalized(v@, eps as int));
    }
    out
}

/// Sum of a sequence of integers.
pub open spec fn sum_ints(s: Seq<int>) -> int
    decreases s.len(),
{
    if s.len() == 0 {
        0
    } else {
        sum_ints(s.drop_last()) + s.last()
    }
}

/// Extending a prefix by one element adds that element to the sum.
pub proof fn lemma_sum_ints_push(s: Seq<int>, i: int)
    requires
        0 <= i < s.len(),
    ensures
        sum_ints(s.subrange(0, i + 1)) == sum_ints(s.subrange(0, i)) + s[i],
{
    let a = s.subrange(0, i + 1);
    assert(a.drop_last() =~= s.subrange(0, i));
    assert(a.last() == s[i]);
}

/// Truncating division of an `i128` by a positive divisor, with the
/// quotient clamped into `[lo, hi]`.
pub fn div_trunc_i128_clamped(p: i128, q: i64, lo: i64, hi: i64) -> (r: i64)
    requires
        0 < q,
        (i128::MIN as int) < (p as int),
        lo <= hi,
    ensures
        r as int == clamp_spec(div_trunc(p as int, q as int), lo as int, hi as int),
{
    let quot: i128 = if p >= 0 {
        proof {
            crate::fixed::lemma_div_nn_le(p as int, q as int);
        }
        ((p as u128) / (q as u128)) as i128
    } else {
        proof {
            crate::fixed::lemma_div_nn_le(-(p as int), q as int);
        }
        -((((-p) as u128) / (q as u128)) as i128)
    };
    if quot < lo as i128 {
        lo
    } else if quot > hi as i128 {
        hi
    } else {
        quot as i64
    }
}

/// Truncating division of an `i128` by a positive `i128`, with the quotient
/// clamped into `[lo, hi]`.
pub fn div_i128_clamped(p: i128, q: i128, lo: i64, hi: i64) -> (r: i64)
    requires
        0 < q,
        (i128::MIN as int) < (p as int),
        lo <= hi,
    ensures
        r as int == clamp_spec(div_trunc(p as int, q as int), lo as int, hi as int),
{
    let quot: i128 = if p >= 0 {
        proof {
            lemma_div_nn_le(p as int, q as int);
        }
        ((p as u128) / (q as u128)) as i128
    } else {
        proof {
            lemma_div_nn_le(-(p as int), q as int);
        }
        -((((-p) as u128) / (q as u128)) as i128)
    };
    if quot < lo as i128 {
        lo
    } else if quot > hi as i128 {
        hi
    } else {
        quot as i64
    }
}

/// Clamp `v` into `[lo, hi]`.
pub fn clamp_i64(v: i64, lo: i64, hi: i64) -> (r: i64)
    requires
        lo <= hi,
    ensures
        r == clamp_spec(v as int, lo as int, hi as int),
{
    if v < lo {
        lo
    } else if v > hi {
        hi
    } else {
        v
    }
}

/// The value of a clamp into `[lo, hi]`.
pub open spec fn clamp_spec(v: int, lo: int, hi: int) -> int {
    if v < lo {
        lo
    } else if v > hi {
        hi
    } else {
        v
    }
}

/// Round a nonnegative Q32 value to the nearest integer (halves up).
pub open spec fn fp_round_nn_spec(a: int) -> int {
    (a + FP_HALF as int) / (FP_ONE as int)
}

/// Round a nonnegative Q32 value to the nearest whole number of units.
pub fn fp_round_nn(a: i64) -> (r: u64)
    requires
        0 <= a,
    ensures
        r as int == fp_round_nn_spec(a as int),
{
    ((a as u64) + (FP_HALF as u64)) / (FP_ONE as u64)
}

} // verus!
