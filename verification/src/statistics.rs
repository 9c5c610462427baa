use vstd::prelude::*;
use vstd::arithmetic::div_mod::{lemma_fundamental_div_mod, lemma_fundamental_div_mod_converse};
use vstd::relations::{sorted_by, total_ordering};
use vstd::multiset::Multiset;

use crate::rational::{isqrt_spec, isqrt_u128, Rat};
use crate::PsiError;
use crate::metrics::{Metric, PSIResultValues, PSIStatisticResult};

verus! {

broadcast use
    vstd::seq_lib::group_to_multiset_ensures,
    vstd::multiset::group_multiset_axioms;

/// Largest magnitude of a fixed-point sample the statistics accept; keeps all
/// 128-bit intermediate arithmetic overflow free.
pub const SAMPLE_LIMIT: i64 = 1_000_000_000;

/// Largest number of samples per metric the statistics accept.
pub const RUNS_LIMIT: usize = 10_000;

/// Largest magnitude of a mean value (`num / den`) accepted by the variance
/// and confidence-interval computations: twice [`SAMPLE_LIMIT`].
pub const MEAN_VALUE_LIMIT: i128 = 2_000_000_000;

/// Largest magnitude of a deviation numerator accepted by
/// [`confidence_interval`].
pub const DEV_NUM_LIMIT: i128 = 10_000_000_000_000_000;

/// Fixed denominator of square-root results: square roots are computed to a
/// millionth.
pub const SQRT_SCALE: i128 = 1_000_000;

/// [`SQRT_SCALE`] squared: a radicand is scaled by this much before taking
/// the integer square root.
pub const SQRT_SCALE_SQ: i128 = 1_000_000_000_000;

/// Numerator of the z-value for a 95% two-sided confidence interval:
/// z = 1.96 = 49/25.
pub const Z_NUM: i128 = 49;

/// Denominator of the z-value for a 95% two-sided confidence interval.
pub const Z_DEN: i128 = 25;

/// Bound on one squared deviation term `(mean.num - mean.den * x)^2`,
/// divided by `mean.den^2`: `(3 * 10^9)^2`.
pub const VAR_VALUE_LIMIT: i128 = 9_000_000_000_000_000_000;

/// Every sample is within [`SAMPLE_LIMIT`] in magnitude.
pub open spec fn samples_bounded(s: Seq<i64>) -> bool {
    forall|i: int| 0 <= i < s.len() ==> -SAMPLE_LIMIT <= #[trigger] s[i] <= SAMPLE_LIMIT
}

/// The exact sum of a sequence of samples.
pub open spec fn sum_ints(s: Seq<i64>) -> int
    decreases s.len(),
{
    if s.len() == 0 {
        0
    } else {
        sum_ints(s.drop_last()) + s.last()
    }
}

/// Numerator of the population variance of `s` around the mean `mn / md`,
/// over the common denominator `md * md * s.len()`:
/// the sum of `(mn - md * x)^2` over the samples `x`.
pub open spec fn var_num(s: Seq<i64>, mn: int, md: int) -> int
    decreases s.len(),
{
    if s.len() == 0 {
        0
    } else {
        var_num(s.drop_last(), mn, md) + (mn - md * s.last()) * (mn - md * s.last())
    }
}

/// What the variance and deviation computations ask of their sample and mean
/// arguments (machine limits of the 128-bit arithmetic).
pub open spec fn stats_args_ok(s: Seq<i64>, mean: Rat) -> bool {
    &&& samples_bounded(s)
    &&& s.len() <= RUNS_LIMIT
    &&& 0 < mean.den <= RUNS_LIMIT as i128
    &&& -(mean.den * MEAN_VALUE_LIMIT) <= mean.num <= mean.den * MEAN_VALUE_LIMIT
}

/// The population variance value scaled by [`SQRT_SCALE_SQ`] and rounded
/// down: the radicand from which a standard deviation is computed.
pub open spec fn scaled_variance(s: Seq<i64>, mn: int, md: int) -> int {
    (var_num(s, mn, md) * SQRT_SCALE_SQ) / (md * md * s.len())
}

/// The sum of bounded samples is bounded linearly in their number.
pub proof fn lemma_sum_ints_bound(s: Seq<i64>)
    requires
        samples_bounded(s),
    ensures
        -(s.len() * SAMPLE_LIMIT) <= sum_ints(s) <= s.len() * SAMPLE_LIMIT,
    decreases s.len(),
{
    if s.len() > 0 {
        assert(samples_bounded(s.drop_last())) by {
            assert(forall|i: int|
                0 <= i < s.drop_last().len() ==> s.drop_last()[i] == #[trigger] s[i]);
        }
        lemma_sum_ints_bound(s.drop_last());
    }
}

/// The variance numerator is non-negative and bounded by
/// `len * (md^2 * VAR_VALUE_LIMIT)`.
pub proof fn lemma_var_num_bounds(s: Seq<i64>, mn: int, md: int)
    requires
        samples_bounded(s),
        0 < md <= RUNS_LIMIT as int,
        -(md * MEAN_VALUE_LIMIT) <= mn <= md * MEAN_VALUE_LIMIT,
    ensures
        0 <= var_num(s, mn, md) <= s.len() * (md * md * VAR_VALUE_LIMIT),
    decreases s.len(),
{
    if s.len() > 0 {
        assert(samples_bounded(s.drop_last())) by {
            assert(forall|i: int|
                0 <= i < s.drop_last().len() ==> s.drop_last()[i] == #[trigger] s[i]);
        }
        lemma_var_num_bounds(s.drop_last(), mn, md);
        let x = s.last() as int;
        let d = mn - md * x;
        assert(0 <= d * d <= md * md * VAR_VALUE_LIMIT) by (nonlinear_arith)
            requires
                0 < md,
                -(md * MEAN_VALUE_LIMIT) <= mn <= md * MEAN_VALUE_LIMIT,
                -SAMPLE_LIMIT <= x <= SAMPLE_LIMIT,
                d == mn - md * x,
        ;
        assert((s.len() - 1) * (md * md * VAR_VALUE_LIMIT) + md * md * VAR_VALUE_LIMIT
            == s.len() * (md * md * VAR_VALUE_LIMIT)) by (nonlinear_arith);
    }
}

/// The mean of a single sample is that sample: any mean fraction of a
/// one-element sequence is the sample over one, and so equals the sample as
/// a rational.
pub proof fn lemma_mean_single(r: Rat, s: Seq<i64>)
    requires
        s.len() == 1,
        is_mean_of(r, s),
    ensures
        r.num == s[0] as int,
        r.den == 1,
        r.eq_spec(Rat { num: s[0] as i128, den: 1 }),
{
    assert(s.drop_last() =~= Seq::<i64>::empty());
    assert(sum_ints(Seq::<i64>::empty()) == 0);
    assert(s.last() == s[0]);
}

/// Arithmetic mean: the exact fraction `sum(samples) / len(samples)`.
/// Zero samples are an [`PsiError::InsufficientData`] error, never a
/// division by zero.
pub fn mean(samples: &Vec<i64>) -> (r: Result<Rat, PsiError>)
    requires
        samples_bounded(samples@),
    ensures
        match r {
            Ok(m) => samples@.len() > 0 && m.num == sum_ints(samples@)
                && m.den == samples@.len() as int,
            Err(e) => samples@.len() == 0 && e == PsiError::InsufficientData,
        },
{
    let n = samples.len();
    if n == 0 {
        return Err(PsiError::InsufficientData);
    }
    let mut sum: i128 = 0;
    let mut i: usize = 0;
    while i < n
        invariant
            i <= n,
            n == samples@.len(),
            samples_bounded(samples@),
            sum == sum_ints(samples@.take(i as int)),
            -((i as int) * SAMPLE_LIMIT) <= sum <= (i as int) * SAMPLE_LIMIT,
        decreases n - i,
    {
        proof {
            assert(samples@.take(i + 1).drop_last() =~= samples@.take(i as int));
            assert(samples@.take(i + 1).last() == samples@[i as int]);
        }
        sum = sum + samples[i] as i128;
        i += 1;
    }
    proof {
        assert(samples@.take(n as int) =~= samples@);
    }
    Ok(Rat { num: sum, den: n as i128 })
}

/// Population variance around a caller-supplied mean, as the exact fraction
/// `sum((mean - x)^2) / (mean.den^2 * len)`. The caller must pass a mean
/// consistent with the samples; the run count used is always the actual
/// sample count.
pub fn variance(samples: &Vec<i64>, mean: Rat) -> (r: Result<Rat, PsiError>)
    requires
        stats_args_ok(samples@, mean),
    ensures
        match r {
            Ok(v) => samples@.len() > 0
                && v.num == var_num(samples@, mean.num as int, mean.den as int)
                && v.den == mean.den * mean.den * samples@.len()
                && v.wf(),
            Err(e) => samples@.len() == 0 && e == PsiError::InsufficientData,
        },
{
    let n = samples.len();
    if n == 0 {
        return Err(PsiError::InsufficientData);
    }
    let mut acc: i128 = 0;
    let mut i: usize = 0;
    while i < n
        invariant
            i <= n,
            n == samples@.len(),
            stats_args_ok(samples@, mean),
            acc == var_num(samples@.take(i as int), mean.num as int, mean.den as int),
            0 <= acc <= (i as int) * (mean.den * mean.den * VAR_VALUE_LIMIT),
        decreases n - i,
    {
        let x = samples[i];
        proof {
            assert(-SAMPLE_LIMIT <= samples@[i as int] <= SAMPLE_LIMIT);
            assert(-(mean.den * (SAMPLE_LIMIT as i128)) <= mean.den * (x as i128) <= mean.den * (
            SAMPLE_LIMIT as i128)) by (nonlinear_arith)
                requires
                    0 < mean.den,
                    -SAMPLE_LIMIT <= x <= SAMPLE_LIMIT,
            ;
            assert(mean.den * (SAMPLE_LIMIT as i128) <= 10_000_000_000_000i128)
                by (nonlinear_arith)
                requires
                    0 < mean.den <= 10_000,
            ;
            assert(mean.den * MEAN_VALUE_LIMIT <= 20_000_000_000_000i128) by (nonlinear_arith)
                requires
                    0 < mean.den <= 10_000,
            ;
        }
        let d = mean.num - mean.den * (x as i128);
        proof {
            assert(0 <= d * d && d * d <= mean.den * mean.den * VAR_VALUE_LIMIT)
                by (nonlinear_arith)
                requires
                    0 < mean.den,
                    -(mean.den * MEAN_VALUE_LIMIT) <= mean.num <= mean.den * MEAN_VALUE_LIMIT,
                    -(mean.den * (SAMPLE_LIMIT as i128)) <= mean.den * (x as i128) <= mean.den * (
                    SAMPLE_LIMIT as i128),
                    d == mean.num - mean.den * (x as i128),
            ;
            assert((i as int) * (mean.den * mean.den * VAR_VALUE_LIMIT)
                <= 9_000_000_000_000_000_000_000_000_000_000i128) by (nonlinear_arith)
                requires
                    0 <= i <= 10_000,
                    0 < mean.den <= 10_000,
            ;
            assert(mean.den * mean.den * VAR_VALUE_LIMIT
                <= 900_000_000_000_000_000_000_000_000i128) by (nonlinear_arith)
                requires
                    0 < mean.den <= 10_000,
            ;
            assert(acc + d * d <= (i as int + 1) * (mean.den * mean.den * VAR_VALUE_LIMIT))
                by (nonlinear_arith)
                requires
                    acc <= (i as int) * (mean.den * mean.den * VAR_VALUE_LIMIT),
                    d * d <= mean.den * mean.den * VAR_VALUE_LIMIT,
            ;
            assert(samples@.take(i + 1).drop_last() =~= samples@.take(i as int));
            assert(samples@.take(i + 1).last() == samples@[i as int]);
        }
        acc = acc + d * d;
        i += 1;
    }
    proof {
        assert(samples@.take(n as int) =~= samples@);
        assert(0 < mean.den * mean.den && mean.den * mean.den <= 100_000_000i128)
            by (nonlinear_arith)
            requires
                0 < mean.den <= 10_000,
        ;
        assert(0 < mean.den * mean.den * (n as i128) && mean.den * mean.den * (n as i128)
            <= 1_000_000_000_000i128) by (nonlinear_arith)
            requires
                0 < mean.den * mean.den <= 100_000_000i128,
                0 < n <= 10_000,
        ;
    }
    Ok(Rat { num: acc, den: mean.den * mean.den * (n as i128) })
}

/// Population standard deviation: the integer square root of the variance
/// scaled by [`SQRT_SCALE_SQ`], over the fixed denominator [`SQRT_SCALE`].
pub fn std_deviation(samples: &Vec<i64>, mean: Rat) -> (r: Result<Rat, PsiError>)
    requires
        stats_args_ok(samples@, mean),
    ensures
        match r {
            Ok(d) => samples@.len() > 0 && d.den == SQRT_SCALE
                && d.num == isqrt_spec(scaled_variance(samples@, mean.num as int, mean.den as int))
                && 0 <= d.num <= DEV_NUM_LIMIT
                && d.wf(),
            Err(e) => samples@.len() == 0 && e == PsiError::InsufficientData,
        },
{
    let v = match variance(samples, mean) {
        Ok(v) => v,
        Err(e) => {
            return Err(e);
        },
    };
    proof {
        lemma_var_num_bounds(samples@, mean.num as int, mean.den as int);
        assert(samples@.len() * (mean.den * mean.den * VAR_VALUE_LIMIT) == (mean.den * mean.den
            * samples@.len()) * VAR_VALUE_LIMIT) by (nonlinear_arith);
        assert(mean.den * mean.den * samples@.len() <= 1_000_000_000_000i128)
            by (nonlinear_arith)
            requires
                0 < mean.den <= 10_000,
                0 < samples@.len() <= 10_000,
        ;
    }
    // Here 0 <= v.num <= v.den * VAR_VALUE_LIMIT and 0 < v.den <= 10^12.
    let un = v.num as u128;
    let ud = v.den as u128;
    let q = un / ud;
    let rm = un % ud;
    proof {
        lemma_fundamental_div_mod(un as int, ud as int);
        assert(q <= VAR_VALUE_LIMIT as u128) by (nonlinear_arith)
            requires
                0 < ud,
                (un as int) <= (ud as int) * VAR_VALUE_LIMIT,
                un as int == (ud as int) * (q as int) + (rm as int),
                q as int == (un as int) / (ud as int),
                rm as int == (un as int) % (ud as int),
                0 <= (rm as int) && (rm as int) < ud as int,
        ;
        assert((q as int) * SQRT_SCALE_SQ <= VAR_VALUE_LIMIT * SQRT_SCALE_SQ)
            by (nonlinear_arith)
            requires
                0 <= (q as int) && (q as int) <= VAR_VALUE_LIMIT,
        ;
        assert((rm as int) * SQRT_SCALE_SQ < SQRT_SCALE_SQ * SQRT_SCALE_SQ) by (nonlinear_arith)
            requires
                0 <= (rm as int) && (rm as int) < SQRT_SCALE_SQ,
        ;
    }
    let rms = rm * (SQRT_SCALE_SQ as u128);
    let u = rms / ud;
    proof {
        lemma_fundamental_div_mod(rms as int, ud as int);
        assert((u as int) < SQRT_SCALE_SQ) by (nonlinear_arith)
            requires
                0 < ud as int,
                (rms as int) < (ud as int) * SQRT_SCALE_SQ,
                rms as int == (ud as int) * (u as int) + (rms as int) % (ud as int),
                u as int == (rms as int) / (ud as int),
                0 <= (rms as int) % (ud as int) && (rms as int) % (ud as int) < ud as int,
        ;
    }
    let t = q * (SQRT_SCALE_SQ as u128) + u;
    proof {
        // t == (v.num * SQRT_SCALE_SQ) / v.den, by the fundamental division identity.
        let a = un as int;
        let b = ud as int;
        let k = SQRT_SCALE_SQ as int;
        let w = (rms as int) % b;
        assert(a * k == b * ((q as int) * k + (u as int)) + w) by (nonlinear_arith)
            requires
                a == b * (q as int) + (rm as int),
                rms as int == (rm as int) * k,
                rms as int == b * (u as int) + w,
        ;
        lemma_fundamental_div_mod_converse(a * k, b, (q as int) * k + (u as int), w);
        assert(t as int == (a * k) / b);
        assert(t as int == scaled_variance(samples@, mean.num as int, mean.den as int));
    }
    let s = isqrt_u128(t);
    proof {
        assert((s as int) <= DEV_NUM_LIMIT) by (nonlinear_arith)
            requires
                (s as int) * (s as int) <= t as int,
                (t as int) <= VAR_VALUE_LIMIT * SQRT_SCALE_SQ + SQRT_SCALE_SQ,
        ;
    }
    Ok(Rat { num: s as i128, den: SQRT_SCALE })
}

/// Numerator of the margin of error `z * deviation / sqrt(n)`, over the
/// denominator [`ci_margin_den`]: `sqrt(n)` is computed as
/// `isqrt(n * SQRT_SCALE_SQ) / SQRT_SCALE`.
pub open spec fn ci_margin_num(deviation: Rat) -> int {
    Z_NUM * deviation.num * SQRT_SCALE
}

/// Denominator of the margin of error `z * deviation / sqrt(n)`.
pub open spec fn ci_margin_den(deviation: Rat, n: int) -> int {
    Z_DEN * deviation.den * isqrt_spec(n * SQRT_SCALE_SQ)
}

/// What [`confidence_interval`] asks of its arguments (machine limits of the
/// 128-bit arithmetic).
pub open spec fn ci_args_ok(mean: Rat, deviation: Rat, n: int) -> bool {
    &&& 0 < mean.den <= RUNS_LIMIT as i128
    &&& -(mean.den * MEAN_VALUE_LIMIT) <= mean.num <= mean.den * MEAN_VALUE_LIMIT
    &&& 0 < deviation.den <= SQRT_SCALE
    &&& -DEV_NUM_LIMIT <= deviation.num <= DEV_NUM_LIMIT
    &&& 0 <= n <= RUNS_LIMIT as int
}

/// 95% confidence interval around `mean`: `(mean - margin, mean + margin)`
/// with `margin = z * deviation / sqrt(n)` and z = 1.96 = [`Z_NUM`]/[`Z_DEN`].
/// `n` must be the actual sample count used for mean and deviation; `n == 0`
/// is an [`PsiError::InsufficientData`] error.
pub fn confidence_interval(mean: Rat, deviation: Rat, n: usize) -> (r: Result<
    (Rat, Rat),
    PsiError,
>)
    requires
        ci_args_ok(mean, deviation, n as int),
    ensures
        match r {
            Ok(lohi) => n > 0 && lohi.0.den == mean.den * ci_margin_den(deviation, n as int)
                && lohi.1.den == lohi.0.den
                && lohi.0.num == mean.num * ci_margin_den(deviation, n as int)
                    - ci_margin_num(deviation) * mean.den
                && lohi.1.num == mean.num * ci_margin_den(deviation, n as int)
                    + ci_margin_num(deviation) * mean.den
                && (deviation.num >= 0 ==> lohi.0.num <= lohi.1.num)
                && lohi.0.wf() && lohi.1.wf(),
            Err(e) => n == 0 && e == PsiError::InsufficientData,
        },
{
    if n == 0 {
        return Err(PsiError::InsufficientData);
    }
    proof {
        assert((n as int) * SQRT_SCALE_SQ <= 10_000_000_000_000_000i128) by (nonlinear_arith)
            requires
                0 < n <= 10_000,
        ;
    }
    let s128 = isqrt_u128((n as u128) * (SQRT_SCALE_SQ as u128));
    proof {
        assert(1 <= s128 as int && (s128 as int) <= 100_000_000) by (nonlinear_arith)
            requires
                (s128 as int) * (s128 as int) <= (n as int) * SQRT_SCALE_SQ,
                (n as int) * SQRT_SCALE_SQ < (s128 as int + 1) * (s128 as int + 1),
                1 <= n,
                (n as int) * SQRT_SCALE_SQ <= 10_000_000_000_000_000i128,
        ;
    }
    let s = s128 as i128;
    let mnum = Z_NUM * deviation.num * SQRT_SCALE;
    proof {
        assert(0 < Z_DEN * deviation.den * s && Z_DEN * deviation.den * s <= Z_DEN * SQRT_SCALE
            * 100_000_000) by (nonlinear_arith)
            requires
                0 < deviation.den <= SQRT_SCALE,
                1 <= s <= 100_000_000,
        ;
    }
    let mden = Z_DEN * deviation.den * s;
    proof {
        assert(-(20_000_000_000_000i128 * (Z_DEN * SQRT_SCALE * 100_000_000)) <= mean.num * mden
            <= 20_000_000_000_000i128 * (Z_DEN * SQRT_SCALE * 100_000_000)) by (nonlinear_arith)
            requires
                0 < mean.den <= 10_000,
                -(mean.den * MEAN_VALUE_LIMIT) <= mean.num <= mean.den * MEAN_VALUE_LIMIT,
                MEAN_VALUE_LIMIT == 2_000_000_000i128,
                0 < mden <= Z_DEN * SQRT_SCALE * 100_000_000,
        ;
        assert(-(Z_NUM * DEV_NUM_LIMIT * SQRT_SCALE * 10_000) <= mnum * mean.den <= Z_NUM
            * DEV_NUM_LIMIT * SQRT_SCALE * 10_000) by (nonlinear_arith)
            requires
                mnum == Z_NUM * deviation.num * SQRT_SCALE,
                -DEV_NUM_LIMIT <= deviation.num <= DEV_NUM_LIMIT,
                0 < mean.den <= 10_000,
        ;
        assert(0 < mean.den * mden && mean.den * mden <= 10_000i128 * (Z_DEN * SQRT_SCALE
            * 100_000_000)) by (nonlinear_arith)
            requires
                0 < mean.den <= 10_000,
                0 < mden <= Z_DEN * SQRT_SCALE * 100_000_000,
        ;
    }
    let lo = Rat { num: mean.num * mden - mnum * mean.den, den: mean.den * mden };
    let hi = Rat { num: mean.num * mden + mnum * mean.den, den: mean.den * mden };
    proof {
        if deviation.num >= 0 {
            assert(mnum * mean.den >= 0) by (nonlinear_arith)
                requires
                    mnum == Z_NUM * deviation.num * SQRT_SCALE,
                    deviation.num >= 0,
                    mean.den > 0,
            ;
        }
    }
    Ok((lo, hi))
}

/// The ordering the median sorts by.
pub open spec fn i64_le() -> spec_fn(i64, i64) -> bool {
    |a: i64, b: i64| a <= b
}

/// The samples in ascending order.
pub open spec fn sorted_samples(s: Seq<i64>) -> Seq<i64> {
    s.sort_by(i64_le())
}

/// `r` is the median of the samples `s` by this tool's convention: sort
/// ascending, take the element at `len / 2` for odd length, the average of
/// the elements at `len / 2` and `len / 2 + 1` for even length.
pub open spec fn is_median_of(r: Rat, s: Seq<i64>) -> bool {
    let t = sorted_samples(s);
    let mid = s.len() as int / 2;
    if s.len() % 2 == 1 {
        r.num == t[mid] as int && r.den == 1
    } else {
        r.num == t[mid] as int + t[mid + 1] as int && r.den == 2
    }
}

/// Builds the ascending sorted copy of the input by repeated selection of a
/// least remaining element.
fn sort_vec(input: &Vec<i64>) -> (out: Vec<i64>)
    ensures
        out@ == sorted_samples(input@),
{
    let mut rem: Vec<i64> = Vec::new();
    let mut i: usize = 0;
    while i < input.len()
        invariant
            i <= input@.len(),
            rem@ == input@.take(i as int),
        decreases input@.len() - i,
    {
        rem.push(input[i]);
        proof {
            assert(input@.take(i + 1) =~= input@.take(i as int).push(input@[i as int]));
        }
        i += 1;
    }
    proof {
        assert(input@.take(input@.len() as int) =~= input@);
    }
    let mut out: Vec<i64> = Vec::new();
    while rem.len() > 0
        invariant
            out@.to_multiset().add(rem@.to_multiset()) == input@.to_multiset(),
            sorted_by(out@, i64_le()),
            forall|a: int, b: int| #![trigger out@[a], rem@[b]]
                0 <= a < out@.len() && 0 <= b < rem@.len() ==> out@[a] <= rem@[b],
        decreases rem.len(),
    {
        let mut j: usize = 1;
        let mut mi: usize = 0;
        while j < rem.len()
            invariant
                mi < rem@.len(),
                1 <= j <= rem@.len(),
                forall|k: int| 0 <= k < j ==> rem@[mi as int] <= #[trigger] rem@[k],
            decreases rem@.len() - j,
        {
            if rem[j] < rem[mi] {
                mi = j;
            }
            j += 1;
        }
        let ghost rem_pre = rem@;
        let ghost out_pre = out@;
        let x = rem.remove(mi);
        out.push(x);
        proof {
            rem_pre.remove_ensures(mi as int);
            assert(rem_pre[mi as int] == x);
            assert(rem_pre.contains(x)) by {
                assert(rem_pre[mi as int] == x);
            }
            assert(rem@ == rem_pre.remove(mi as int));
            assert(rem_pre.remove(mi as int).to_multiset() =~= rem_pre.to_multiset().remove(
                rem_pre[mi as int]));
            assert(rem@.to_multiset() =~= rem_pre.to_multiset().remove(x));
            assert(rem_pre.to_multiset().count(x) > 0);
            assert(rem@.to_multiset().insert(x) =~= rem_pre.to_multiset());
            assert(out@.to_multiset() =~= out_pre.to_multiset().insert(x));
            assert(out@.to_multiset().add(rem@.to_multiset()) =~= out_pre.to_multiset().add(
                rem_pre.to_multiset()));
            assert forall|a: int, b: int| 0 <= a < b < out@.len() implies #[trigger] i64_le()(
                out@[a],
                out@[b],
            ) by {
                if b < out@.len() - 1 {
                    assert(i64_le()(out_pre[a], out_pre[b]));
                } else {
                    assert(out@[b] == x);
                    assert(out_pre[a] <= rem_pre[mi as int]);
                }
            }
            assert forall|a: int, b: int| #![trigger out@[a], rem@[b]]
                0 <= a < out@.len() && 0 <= b < rem@.len() implies out@[a] <= rem@[b] by {
                let bp = if b < mi as int {
                    b
                } else {
                    b + 1
                };
                assert(rem@[b] == rem_pre[bp]);
                if a < out@.len() - 1 {
                    assert(out@[a] == out_pre[a]);
                    assert(out_pre[a] <= rem_pre[bp]);
                } else {
                    assert(out@[a] == x);
                    assert(rem_pre[mi as int] <= rem_pre[bp]);
                }
            }
        }
    }
    proof {
        assert(rem@ =~= Seq::<i64>::empty());
        assert(rem@.to_multiset() =~= Multiset::<i64>::empty());
        assert(out@.to_multiset() =~= input@.to_multiset());
        input@.lemma_sort_by_ensures(i64_le());
        assert(total_ordering(i64_le())) by {
            let r = i64_le();
            assert forall|a: i64| #[trigger] r(a, a) by {}
            assert forall|a: i64, b: i64| #[trigger] r(a, b) || #[trigger] r(b, a) by {}
        }
        vstd::seq_lib::lemma_sorted_unique(out@, input@.sort_by(i64_le()), i64_le());
    }
    out
}

/// Median: sort ascending and take the element at `len / 2` for odd length,
/// or the average of the elements at `len / 2` and `len / 2 + 1` for even
/// length (the historical convention of this tool; a sequence of length 2
/// has no such pair and is excluded). Zero samples are an
/// [`PsiError::InsufficientData`] error.
pub fn median(samples: &Vec<i64>) -> (r: Result<Rat, PsiError>)
    requires
        samples@.len() != 2,
    ensures
        match r {
            Ok(m) => samples@.len() > 0 && is_median_of(m, samples@),
            Err(e) => samples@.len() == 0 && e == PsiError::InsufficientData,
        },
{
    let n = samples.len();
    if n == 0 {
        return Err(PsiError::InsufficientData);
    }
    let sorted = sort_vec(samples);
    proof {
        samples@.lemma_sort_by_ensures(i64_le());
        assert(samples@.to_multiset().len() == samples@.len());
        assert(sorted_samples(samples@).to_multiset().len() == sorted_samples(samples@).len());
        assert(sorted@.len() == samples@.len());
    }
    let mid = n / 2;
    if n % 2 == 1 {
        Ok(Rat { num: sorted[mid] as i128, den: 1 })
    } else {
        Ok(Rat { num: sorted[mid] as i128 + sorted[mid + 1] as i128, den: 2 })
    }
}

/// `r` is the exact mean fraction of the samples `s`.
pub open spec fn is_mean_of(r: Rat, s: Seq<i64>) -> bool {
    r.num == sum_ints(s) && r.den == s.len()
}

/// `r` is the standard deviation of the samples `s` around `mean`, at the
/// fixed [`SQRT_SCALE`] precision.
pub open spec fn is_std_dev_of(r: Rat, s: Seq<i64>, mean: Rat) -> bool {
    r.den == SQRT_SCALE && r.num == isqrt_spec(scaled_variance(s, mean.num as int, mean.den as int))
}

/// `lohi` is the 95% confidence interval around `mean` for `n` runs with the
/// given deviation: `(mean - margin, mean + margin)` over a common exact
/// denominator.
pub open spec fn is_ci_of(lohi: (Rat, Rat), mean: Rat, deviation: Rat, n: int) -> bool {
    &&& lohi.0.den == mean.den * ci_margin_den(deviation, n)
    &&& lohi.1.den == lohi.0.den
    &&& lohi.0.num == mean.num * ci_margin_den(deviation, n) - ci_margin_num(deviation) * mean.den
    &&& lohi.1.num == mean.num * ci_margin_den(deviation, n) + ci_margin_num(deviation) * mean.den
}

/// Applies [`mean`] to every metric of a set, preserving the metric key set:
/// the result has an entry for exactly the metrics the input has.
pub fn calculate_mean(page_results: &PSIResultValues) -> (r: Result<
    PSIStatisticResult<Rat>,
    PsiError,
>)
    requires
        page_results.wf(),
        page_results.bounded(),
    ensures
        match r {
            Ok(st) => page_results.run_count() > 0 && st@.dom() == page_results@.dom()
                && forall|m: Metric| is_mean_of(#[trigger] st.entry(m), page_results.samples(m)),
            Err(e) => page_results.run_count() == 0 && e == PsiError::InsufficientData,
        },
{
    proof {
        assert(page_results.samples(Metric::CumulativeLayoutShift)
            == page_results.cumulative_layout_shift@);
        assert(page_results.samples(Metric::FirstContentfulPaint)
            == page_results.first_contentful_paint@);
        assert(page_results.samples(Metric::JsExecutionTime)
            == page_results.js_execution_time@);
        assert(page_results.samples(Metric::LargestContentfulPaint)
            == page_results.largest_contentful_paint@);
        assert(page_results.samples(Metric::SpeedIndex) == page_results.speed_index@);
        assert(page_results.samples(Metric::TimeToInteractive)
            == page_results.time_to_interactive@);
        assert(page_results.samples(Metric::TotalBlockingTime)
            == page_results.total_blocking_time@);
        assert(page_results.samples(Metric::Score) == page_results.score@);
    }
    let cls = match mean(&page_results.cumulative_layout_shift) {
        Ok(v) => v,
        Err(e) => {
            return Err(e);
        },
    };
    let fcp = match mean(&page_results.first_contentful_paint) {
        Ok(v) => v,
        Err(e) => {
            return Err(e);
        },
    };
    let jet = match mean(&page_results.js_execution_time) {
        Ok(v) => v,
        Err(e) => {
            return Err(e);
        },
    };
    let lcp = match mean(&page_results.largest_contentful_paint) {
        Ok(v) => v,
        Err(e) => {
            return Err(e);
        },
    };
    let si = match mean(&page_results.speed_index) {
        Ok(v) => v,
        Err(e) => {
            return Err(e);
        },
    };
    let tti = match mean(&page_results.time_to_interactive) {
        Ok(v) => v,
        Err(e) => {
            return Err(e);
        },
    };
    let tbt = match mean(&page_results.total_blocking_time) {
        Ok(v) => v,
        Err(e) => {
            return Err(e);
        },
    };
    let score = match mean(&page_results.score) {
        Ok(v) => v,
        Err(e) => {
            return Err(e);
        },
    };
    let st = PSIStatisticResult {
        cumulative_layout_shift: cls,
        first_contentful_paint: fcp,
        js_execution_time: jet,
        largest_contentful_paint: lcp,
        speed_index: si,
        time_to_interactive: tti,
        total_blocking_time: tbt,
        score,
    };
    proof {
        assert(st@.dom() =~= page_results@.dom());
    }
    Ok(st)
}

/// Applies [`std_deviation`] to every metric of a set with the matching
/// entry of an already computed mean, preserving the metric key set.
pub fn calculate_deviation(
    page_results: &PSIResultValues,
    page_mean: &PSIStatisticResult<Rat>,
) -> (r: Result<PSIStatisticResult<Rat>, PsiError>)
    requires
        page_results.wf(),
        forall|m: Metric|
            stats_args_ok(page_results.samples(m), #[trigger] page_mean.entry(m)),
    ensures
        match r {
            Ok(st) => page_results.run_count() > 0 && st@.dom() == page_results@.dom()
                && forall|m: Metric| {
                    &&& is_std_dev_of(
                        #[trigger] st.entry(m),
                        page_results.samples(m),
                        page_mean.entry(m),
                    )
                    &&& 0 <= st.entry(m).num <= DEV_NUM_LIMIT
                },
            Err(e) => page_results.run_count() == 0 && e == PsiError::InsufficientData,
        },
{
    proof {
        assert(page_results.samples(Metric::CumulativeLayoutShift)
            == page_results.cumulative_layout_shift@);
        assert(page_results.samples(Metric::FirstContentfulPaint)
            == page_results.first_contentful_paint@);
        assert(page_results.samples(Metric::JsExecutionTime)
            == page_results.js_execution_time@);
        assert(page_results.samples(Metric::LargestContentfulPaint)
            == page_results.largest_contentful_paint@);
        assert(page_results.samples(Metric::SpeedIndex) == page_results.speed_index@);
        assert(page_results.samples(Metric::TimeToInteractive)
            == page_results.time_to_interactive@);
        assert(page_results.samples(Metric::TotalBlockingTime)
            == page_results.total_blocking_time@);
        assert(page_results.samples(Metric::Score) == page_results.score@);
        assert(stats_args_ok(
            page_results.samples(Metric::CumulativeLayoutShift),
            page_mean.entry(Metric::CumulativeLayoutShift),
        ));
        assert(stats_args_ok(
            page_results.samples(Metric::FirstContentfulPaint),
            page_mean.entry(Metric::FirstContentfulPaint),
        ));
        assert(stats_args_ok(
            page_results.samples(Metric::JsExecutionTime),
            page_mean.entry(Metric::JsExecutionTime),
        ));
        assert(stats_args_ok(
            page_results.samples(Metric::LargestContentfulPaint),
            page_mean.entry(Metric::LargestContentfulPaint),
        ));
        assert(stats_args_ok(
            page_results.samples(Metric::SpeedIndex),
            page_mean.entry(Metric::SpeedIndex),
        ));
        assert(stats_args_ok(
            page_results.samples(Metric::TimeToInteractive),
            page_mean.entry(Metric::TimeToInteractive),
        ));
        assert(stats_args_ok(
            page_results.samples(Metric::TotalBlockingTime),
            page_mean.entry(Metric::TotalBlockingTime),
        ));
        assert(stats_args_ok(
            page_results.samples(Metric::Score),
            page_mean.entry(Metric::Score),
        ));
    }
    let cls = match std_deviation(
        &page_results.cumulative_layout_shift,
        page_mean.cumulative_layout_shift,
    ) {
        Ok(v) => v,
        Err(e) => {
            return Err(e);
        },
    };
    let fcp = match std_deviation(
        &page_results.first_contentful_paint,
        page_mean.first_contentful_paint,
    ) {
        Ok(v) => v,
        Err(e) => {
            return Err(e);
        },
    };
    let jet = match std_deviation(&page_results.js_execution_time, page_mean.js_execution_time) {
        Ok(v) => v,
        Err(e) => {
            return Err(e);
        },
    };
    let lcp = match std_deviation(
        &page_results.largest_contentful_paint,
        page_mean.largest_contentful_paint,
    ) {
        Ok(v) => v,
        Err(e) => {
            return Err(e);
        },
    };
    let si = match std_deviation(&page_results.speed_index, page_mean.speed_index) {
        Ok(v) => v,
        Err(e) => {
            return Err(e);
        },
    };
    let tti = match std_deviation(&page_results.time_to_interactive, page_mean.time_to_interactive)
        {
        Ok(v) => v,
        Err(e) => {
            return Err(e);
        },
    };
    let tbt = match std_deviation(&page_results.total_blocking_time, page_mean.total_blocking_time)
        {
        Ok(v) => v,
        Err(e) => {
            return Err(e);
        },
    };
    let score = match std_deviation(&page_results.score, page_mean.score) {
        Ok(v) => v,
        Err(e) => {
            return Err(e);
        },
    };
    let st = PSIStatisticResult {
        cumulative_layout_shift: cls,
        first_contentful_paint: fcp,
        js_execution_time: jet,
        largest_contentful_paint: lcp,
        speed_index: si,
        time_to_interactive: tti,
        total_blocking_time: tbt,
        score,
    };
    proof {
        assert(st@.dom() =~= page_results@.dom());
    }
    Ok(st)
}

/// Applies [`confidence_interval`] to the matching entries of an already
/// computed mean and deviation, preserving the metric key set. The run count
/// must be the actual sample count the mean and deviation were computed
/// from.
pub fn calculate_confidence_interval(
    page_mean: &PSIStatisticResult<Rat>,
    page_std_deviation: &PSIStatisticResult<Rat>,
    number_of_runs: usize,
) -> (r: Result<PSIStatisticResult<(Rat, Rat)>, PsiError>)
    requires
        forall|m: Metric|
            ci_args_ok(
                #[trigger] page_mean.entry(m),
                page_std_deviation.entry(m),
                number_of_runs as int,
            ),
    ensures
        match r {
            Ok(st) => number_of_runs > 0 && st@.dom() == page_mean@.dom()
                && forall|m: Metric| is_ci_of(
                    #[trigger] st.entry(m),
                    page_mean.entry(m),
                    page_std_deviation.entry(m),
                    number_of_runs as int,
                ),
            Err(e) => number_of_runs == 0 && e == PsiError::InsufficientData,
        },
{
    proof {
        assert(ci_args_ok(
            page_mean.entry(Metric::CumulativeLayoutShift),
            page_std_deviation.entry(Metric::CumulativeLayoutShift),
            number_of_runs as int,
        ));
        assert(ci_args_ok(
            page_mean.entry(Metric::FirstContentfulPaint),
            page_std_deviation.entry(Metric::FirstContentfulPaint),
            number_of_runs as int,
        ));
        assert(ci_args_ok(
            page_mean.entry(Metric::JsExecutionTime),
            page_std_deviation.entry(Metric::JsExecutionTime),
            number_of_runs as int,
        ));
        assert(ci_args_ok(
            page_mean.entry(Metric::LargestContentfulPaint),
            page_std_deviation.entry(Metric::LargestContentfulPaint),
            number_of_runs as int,
        ));
        assert(ci_args_ok(
            page_mean.entry(Metric::SpeedIndex),
            page_std_deviation.entry(Metric::SpeedIndex),
            number_of_runs as int,
        ));
        assert(ci_args_ok(
            page_mean.entry(Metric::TimeToInteractive),
            page_std_deviation.entry(Metric::TimeToInteractive),
            number_of_runs as int,
        ));
        assert(ci_args_ok(
            page_mean.entry(Metric::TotalBlockingTime),
            page_std_deviation.entry(Metric::TotalBlockingTime),
            number_of_runs as int,
        ));
        assert(ci_args_ok(
            page_mean.entry(Metric::Score),
            page_std_deviation.entry(Metric::Score),
            number_of_runs as int,
        ));
    }
    let cls = match confidence_interval(
        page_mean.cumulative_layout_shift,
        page_std_deviation.cumulative_layout_shift,
        number_of_runs,
    ) {
        Ok(v) => v,
        Err(e) => {
            return Err(e);
        },
    };
    let fcp = match confidence_interval(
        page_mean.first_contentful_paint,
        page_std_deviation.first_contentful_paint,
        number_of_runs,
    ) {
        Ok(v) => v,
        Err(e) => {
            return Err(e);
        },
    };
    let jet = match confidence_interval(
        page_mean.js_execution_time,
        page_std_deviation.js_execution_time,
        number_of_runs,
    ) {
        Ok(v) => v,
        Err(e) => {
            return Err(e);
        },
    };
    let lcp = match confidence_interval(
        page_mean.largest_contentful_paint,
        page_std_deviation.largest_contentful_paint,
        number_of_runs,
    ) {
        Ok(v) => v,
        Err(e) => {
            return Err(e);
        },
    };
    let si = match confidence_interval(
        page_mean.speed_index,
        page_std_deviation.speed_index,
        number_of_runs,
    ) {
        Ok(v) => v,
        Err(e) => {
            return Err(e);
        },
    };
    let tti = match confidence_interval(
        page_mean.time_to_interactive,
        page_std_deviation.time_to_interactive,
        number_of_runs,
    ) {
        Ok(v) => v,
        Err(e) => {
            return Err(e);
        },
    };
    let tbt = match confidence_interval(
        page_mean.total_blocking_time,
        page_std_deviation.total_blocking_time,
        number_of_runs,
    ) {
        Ok(v) => v,
        Err(e) => {
            return Err(e);
        },
    };
    let score = match confidence_interval(
        page_mean.score,
        page_std_deviation.score,
        number_of_runs,
    ) {
        Ok(v) => v,
        Err(e) => {
            return Err(e);
        },
    };
    let st = PSIStatisticResult {
        cumulative_layout_shift: cls,
        first_contentful_paint: fcp,
        js_execution_time: jet,
        largest_contentful_paint: lcp,
        speed_index: si,
        time_to_interactive: tti,
        total_blocking_time: tbt,
        score,
    };
    proof {
        assert(st@.dom() =~= page_mean@.dom());
    }
    Ok(st)
}

/// All statistics of one single-page test.
pub struct TestResult {
    pub page_mean: PSIStatisticResult<Rat>,
    pub page_deviation: PSIStatisticResult<Rat>,
    pub page_confidence_interval: PSIStatisticResult<(Rat, Rat)>,
    pub success_runs: usize,
}

/// The full single-page pipeline: mean, standard deviation and 95%
/// confidence interval of every metric. Every statistic, the confidence
/// interval included, is computed with the actual number of successful runs,
/// never a requested run count.
pub fn single_page_stats(page_results: &PSIResultValues) -> (r: Result<TestResult, PsiError>)
    requires
        page_results.wf(),
        page_results.bounded(),
        page_results.run_count() <= RUNS_LIMIT,
    ensures
        match r {
            Ok(t) => page_results.run_count() > 0
                && t.success_runs == page_results.run_count()
                && forall|m: Metric| {
                    &&& is_mean_of(#[trigger] t.page_mean.entry(m), page_results.samples(m))
                    &&& is_std_dev_of(
                        t.page_deviation.entry(m),
                        page_results.samples(m),
                        t.page_mean.entry(m),
                    )
                    &&& is_ci_of(
                        t.page_confidence_interval.entry(m),
                        t.page_mean.entry(m),
                        t.page_deviation.entry(m),
                        page_results.run_count() as int,
                    )
                },
            Err(e) => page_results.run_count() == 0 && e == PsiError::InsufficientData,
        },
{
    let page_mean = match calculate_mean(page_results) {
        Ok(v) => v,
        Err(e) => {
            return Err(e);
        },
    };
    proof {
        assert forall|m: Metric|
            stats_args_ok(page_results.samples(m), #[trigger] page_mean.entry(m)) by {
            lemma_sum_ints_bound(page_results.samples(m));
        }
    }
    let page_deviation = match calculate_deviation(page_results, &page_mean) {
        Ok(v) => v,
        Err(e) => {
            return Err(e);
        },
    };
    proof {
        assert forall|m: Metric|
            ci_args_ok(
                #[trigger] page_mean.entry(m),
                page_deviation.entry(m),
                page_results.run_count() as int,
            ) by {
            lemma_sum_ints_bound(page_results.samples(m));
        }
    }
    let nruns = page_results.score.len();
    proof {
        assert(page_results.samples(Metric::Score) == page_results.score@);
        assert(nruns == page_results.run_count());
    }
    let page_confidence_interval = match calculate_confidence_interval(
        &page_mean,
        &page_deviation,
        nruns,
    ) {
        Ok(v) => v,
        Err(e) => {
            return Err(e);
        },
    };
    Ok(TestResult {
        page_mean,
        page_deviation,
        page_confidence_interval,
        success_runs: nruns,
    })
}

} // verus!
