use vstd::prelude::*;

use rand::rngs::StdRng;

use crate::query::is_indicator_seq;
use crate::random::choose_one;
use crate::sampling::SampleFraction;
use crate::EstimateError;

verus! {

pub open spec fn seq_sum(s: Seq<i64>) -> int
    decreases s.len(),
{
    if s.len() == 0 {
        0
    } else {
        seq_sum(s.drop_last()) + s.last()
    }
}

/// `sum / fraction`, truncated, and held at `i64::MAX` where it is larger.
pub open spec fn scaled(sum: int, f: SampleFraction) -> int {
    let q = sum * (f.denominator as int) / (f.numerator as int);
    if q > i64::MAX {
        i64::MAX as int
    } else {
        q
    }
}

/// `r` is a resample of `data`: as many items, each one of `data`'s.
pub open spec fn is_resample(r: Seq<i64>, data: Seq<i64>) -> bool {
    &&& r.len() == data.len()
    &&& forall|j: int| 0 <= j < r.len() ==> data.contains(#[trigger] r[j])
}

/// `x` is the scaled sum of some resample of `data`.
pub open spec fn is_bootstrap_value(x: i64, data: Seq<i64>, f: SampleFraction) -> bool {
    exists|r: Seq<i64>| is_resample(r, data) && x == scaled(seq_sum(r), f)
}

/// The sum of a sequence of indicators lies between zero and its length.
pub proof fn lemma_indicator_sum_bounds(s: Seq<i64>)
    requires
        is_indicator_seq(s),
    ensures
        0 <= seq_sum(s) <= s.len(),
    decreases s.len(),
{
    if s.len() > 0 {
        let p = s.drop_last();
        assert(is_indicator_seq(p)) by {
            assert forall|i: int| 0 <= i < p.len() implies #[trigger] p[i] == 0 || p[i] == 1 by {
                assert(p[i] == s[i]);
            }
        }
        lemma_indicator_sum_bounds(p);
        assert(s.last() == s[s.len() - 1]);
    }
}

/// Every resampled sum of an indicator population lies in `[0, len]`: it is
/// the sum of `len` draws, each 0 or 1.
pub proof fn lemma_resampled_sum_bounds(r: Seq<i64>, data: Seq<i64>)
    requires
        is_indicator_seq(data),
        is_resample(r, data),
    ensures
        0 <= seq_sum(r) <= data.len(),
{
    assert(is_indicator_seq(r)) by {
        assert forall|i: int| 0 <= i < r.len() implies #[trigger] r[i] == 0 || r[i] == 1 by {
            assert(data.contains(r[i]));
        }
    }
    lemma_indicator_sum_bounds(r);
}

/// Every value of a bootstrap distribution of an indicator population is the
/// scaled value of a sum in `[0, len]`.
pub proof fn lemma_bootstrap_value_range(x: i64, data: Seq<i64>, f: SampleFraction)
    requires
        is_indicator_seq(data),
        is_bootstrap_value(x, data, f),
    ensures
        exists|s: int| 0 <= s <= data.len() && x == scaled(s, f),
{
    let r = choose|r: Seq<i64>| is_resample(r, data) && x == scaled(seq_sum(r), f);
    lemma_resampled_sum_bounds(r, data);
}

/// The sum of a sequence of indicators.
fn indicator_sum(s: &Vec<i64>) -> (r: u64)
    requires
        is_indicator_seq(s@),
    ensures
        r == seq_sum(s@),
        r <= s@.len(),
{
    let mut sum: u64 = 0;
    let mut i: usize = 0;
    while i < s.len()
        invariant
            i <= s@.len(),
            is_indicator_seq(s@),
            sum == seq_sum(s@.take(i as int)),
            sum <= i,
        decreases s@.len() - i,
    {
        assert(s@.take(i as int + 1).drop_last() =~= s@.take(i as int));
        sum = sum + s[i] as u64;
        i += 1;
    }
    assert(s@.take(i as int) =~= s@);
    sum
}

/// `sum / fraction` truncated, held at `i64::MAX`.
fn scale(sum: u64, fraction: &SampleFraction) -> (r: i64)
    requires
        fraction.is_positive(),
    ensures
        r == scaled(sum as int, *fraction),
{
    let den = fraction.denominator as u128;
    let num = fraction.numerator as u128;
    proof {
        assert(0 <= sum * den <= u64::MAX * u64::MAX) by (nonlinear_arith)
            requires
                sum <= u64::MAX,
                den <= u64::MAX,
                sum >= 0,
                den >= 0,
        ;
    }
    let q = (sum as u128 * den) / num;
    if q > i64::MAX as u128 {
        i64::MAX
    } else {
        q as i64
    }
}

/// The estimate from a sample: the sum of its indicators over the fraction,
/// truncated.
pub fn sample_ground_truth(query_result: &Vec<i64>, fraction: &SampleFraction) -> (r: i64)
    requires
        is_indicator_seq(query_result@),
        fraction.is_positive(),
    ensures
        r == scaled(seq_sum(query_result@), *fraction),
{
    let sum = indicator_sum(query_result);
    scale(sum, fraction)
}

/// `size` items drawn from `sample_query_result` with replacement.
pub fn random_sample_with_replacement(
    sample_query_result: &Vec<i64>,
    size: usize,
    rng: &mut StdRng,
) -> (r: Vec<i64>)
    requires
        sample_query_result@.len() > 0 || size == 0,
    ensures
        r@.len() == size,
        forall|j: int| 0 <= j < size ==> sample_query_result@.contains(#[trigger] r@[j]),
{
    let mut sample: Vec<i64> = Vec::new();
    let mut i: usize = 0;
    while i < size
        invariant
            i <= size,
            sample_query_result@.len() > 0 || size == 0,
            sample@.len() == i,
            forall|j: int| 0 <= j < i ==> sample_query_result@.contains(#[trigger] sample@[j]),
        decreases size - i,
    {
        match choose_one(rng, sample_query_result.as_slice()) {
            Some(v) => {
                sample.push(v);
            },
            None => {
                assert(false);
            },
        }
        i += 1;
    }
    sample
}

/// The bootstrap distribution: `num_resamples` times, resample `data` with
/// replacement, sum the resample and scale the sum by the fraction.
/// Fails with `InvalidArgument` when `data` is empty or the fraction is not
/// above zero.
pub fn bootstrap_sums(
    data: &Vec<i64>,
    num_resamples: usize,
    sample_fraction: &SampleFraction,
    rng: &mut StdRng,
) -> (r: Result<Vec<i64>, EstimateError>)
    requires
        is_indicator_seq(data@),
    ensures
        r is Err <==> data@.len() == 0 || !sample_fraction.is_positive(),
        r matches Err(e) ==> e == EstimateError::InvalidArgument,
        r matches Ok(v) ==> v@.len() == num_resamples && forall|i: int|
            0 <= i < num_resamples ==> is_bootstrap_value(#[trigger] v@[i], data@, *sample_fraction),
{
    if data.len() == 0 || sample_fraction.numerator == 0 || sample_fraction.denominator == 0 {
        return Err(EstimateError::InvalidArgument);
    }
    let mut sums: Vec<i64> = Vec::new();
    let mut i: usize = 0;
    while i < num_resamples
        invariant
            i <= num_resamples,
            data@.len() > 0,
            is_indicator_seq(data@),
            sample_fraction.is_positive(),
            sums@.len() == i,
            forall|k: int|
                0 <= k < i ==> is_bootstrap_value(#[trigger] sums@[k], data@, *sample_fraction),
        decreases num_resamples - i,
    {
        let resample = random_sample_with_replacement(data, data.len(), rng);
        assert(is_indicator_seq(resample@)) by {
            assert forall|j: int| 0 <= j < resample@.len() implies #[trigger] resample@[j] == 0
                || resample@[j] == 1 by {
                assert(data@.contains(resample@[j]));
            }
        }
        let sum = indicator_sum(&resample);
        let value = scale(sum, sample_fraction);
        assert(is_resample(resample@, data@));
        assert(is_bootstrap_value(value, data@, *sample_fraction));
        sums.push(value);
        i += 1;
    }
    Ok(sums)
}

} // verus!
