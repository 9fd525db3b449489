use vstd::prelude::*;

use crate::bootstrap::seq_sum;
use crate::EstimateError;

verus! {

/// An exact ratio `numerator / denominator`.
#[derive(Clone, Copy, Debug, PartialEq, Eq, Structural)]
pub struct Ratio {
    pub numerator: i128,
    pub denominator: u128,
}

pub open spec fn sum_sq(s: Seq<i64>) -> int
    decreases s.len(),
{
    if s.len() == 0 {
        0
    } else {
        sum_sq(s.drop_last()) + s.last() * s.last()
    }
}

/// `n * Σx² - (Σx)²`: `n² (n - 1)` times the sample variance of `s`.
pub open spec fn spread(s: Seq<i64>) -> int {
    s.len() * sum_sq(s) - seq_sum(s) * seq_sum(s)
}

/// The exact sample variance of `s` (Bessel's correction) fits the ratio type.
pub open spec fn variance_fits(s: Seq<i64>) -> bool {
    &&& s.len() * sum_sq(s) <= i128::MAX
    &&& seq_sum(s) * seq_sum(s) <= i128::MAX
}

proof fn lemma_sum_bounds(s: Seq<i64>)
    ensures
        -s.len() * 0x8000_0000_0000_0000 <= seq_sum(s) <= s.len() * 0x7fff_ffff_ffff_ffff,
    decreases s.len(),
{
    if s.len() > 0 {
        lemma_sum_bounds(s.drop_last());
    }
}

proof fn lemma_sum_sq_prefix(s: Seq<i64>, k: int)
    requires
        0 <= k <= s.len(),
    ensures
        0 <= sum_sq(s.take(k)) <= sum_sq(s),
    decreases s.len() - k,
{
    lemma_sum_sq_nonneg(s.take(k));
    if k < s.len() {
        lemma_sum_sq_prefix(s, k + 1);
        assert(s.take(k + 1).drop_last() =~= s.take(k));
        let x = s[k] as int;
        assert(x * x >= 0) by (nonlinear_arith);
    } else {
        assert(s.take(k) =~= s);
    }
}

proof fn lemma_sum_sq_nonneg(s: Seq<i64>)
    ensures
        sum_sq(s) >= 0,
    decreases s.len(),
{
    if s.len() > 0 {
        lemma_sum_sq_nonneg(s.drop_last());
        let x = s.last() as int;
        assert(x * x >= 0) by (nonlinear_arith);
    }
}

/// The arithmetic mean of `bootstrap_sums`, exactly: the sum over the count.
/// Fails with `InvalidArgument` on an empty distribution.
pub fn calculate_mean(bootstrap_sums: &Vec<i64>) -> (r: Result<Ratio, EstimateError>)
    ensures
        r is Err <==> bootstrap_sums@.len() == 0,
        r matches Err(e) ==> e == EstimateError::InvalidArgument,
        r matches Ok(m) ==> m.numerator == seq_sum(bootstrap_sums@) && m.denominator
            == bootstrap_sums@.len(),
{
    let n = bootstrap_sums.len();
    if n == 0 {
        return Err(EstimateError::InvalidArgument);
    }
    let mut sum: i128 = 0;
    let mut i: usize = 0;
    while i < n
        invariant
            n == bootstrap_sums@.len(),
            i <= n,
            sum == seq_sum(bootstrap_sums@.take(i as int)),
        decreases n - i,
    {
        assert(bootstrap_sums@.take(i as int + 1).drop_last() =~= bootstrap_sums@.take(i as int));
        proof {
            lemma_sum_bounds(bootstrap_sums@.take(i as int + 1));
        }
        sum = sum + bootstrap_sums[i] as i128;
        i += 1;
    }
    assert(bootstrap_sums@.take(n as int) =~= bootstrap_sums@);
    Ok(Ratio { numerator: sum, denominator: n as u128 })
}

/// The sample variance of `bootstrap_sums` with Bessel's correction, exactly:
/// `(n Σx² - (Σx)²) / (n (n - 1))`. The standard error is its square root.
/// Fails with `InvalidArgument` below two values, where the divisor is zero,
/// and with `OutOfRange` where the exact terms do not fit 128 bits.
pub fn calculate_variance(bootstrap_sums: &Vec<i64>) -> (r: Result<Ratio, EstimateError>)
    ensures
        r matches Err(e) ==> (e == EstimateError::InvalidArgument <==> bootstrap_sums@.len() < 2),
        r matches Err(e) ==> (e == EstimateError::OutOfRange <==> bootstrap_sums@.len() >= 2
            && !variance_fits(bootstrap_sums@)),
        r is Ok <==> bootstrap_sums@.len() >= 2 && variance_fits(bootstrap_sums@),
        r matches Ok(v) ==> v.numerator == spread(bootstrap_sums@) && v.denominator
            == bootstrap_sums@.len() * (bootstrap_sums@.len() - 1),
{
    let ghost s = bootstrap_sums@;
    let n = bootstrap_sums.len();
    if n < 2 {
        return Err(EstimateError::InvalidArgument);
    }
    let mut sum: i128 = 0;
    let mut squares: i128 = 0;
    let mut i: usize = 0;
    while i < n
        invariant
            n == s.len(),
            s == bootstrap_sums@,
            i <= n,
            sum == seq_sum(s.take(i as int)),
            squares == sum_sq(s.take(i as int)),
        decreases n - i,
    {
        assert(s.take(i as int + 1).drop_last() =~= s.take(i as int));
        proof {
            lemma_sum_bounds(s.take(i as int + 1));
            lemma_sum_sq_prefix(s, i as int + 1);
            lemma_sum_sq_prefix(s, i as int);
        }
        let x = bootstrap_sums[i] as i128;
        proof {
            let xi = x as int;
            assert(0 <= xi * xi <= 0x8000_0000_0000_0000 * 0x8000_0000_0000_0000) by (nonlinear_arith)
                requires
                    -0x8000_0000_0000_0000 <= xi <= 0x7fff_ffff_ffff_ffff,
            ;
        }
        match squares.checked_add(x * x) {
            Some(t) => {
                squares = t;
            },
            None => {
                proof {
                    lemma_sum_sq_prefix(s, i as int + 1);
                    let q = sum_sq(s);
                    assert(s.len() * q > i128::MAX) by (nonlinear_arith)
                        requires
                            s.len() >= 2,
                            q > i128::MAX,
                    ;
                }
                return Err(EstimateError::OutOfRange);
            },
        }
        sum = sum + x;
        i += 1;
    }
    assert(s.take(n as int) =~= s);
    proof {
        lemma_sum_sq_nonneg(s);
    }
    let total = match squares.checked_mul(n as i128) {
        Some(t) => t,
        None => {
            assert(n * squares == s.len() * sum_sq(s)) by (nonlinear_arith)
                requires
                    n == s.len(),
                    squares == sum_sq(s),
            ;
            return Err(EstimateError::OutOfRange);
        },
    };
    proof {
        assert(sum * sum >= 0) by (nonlinear_arith);
    }
    let square_of_sum = match sum.checked_mul(sum) {
        Some(t) => t,
        None => {
            return Err(EstimateError::OutOfRange);
        },
    };
    proof {
        assert(squares * n == s.len() * sum_sq(s)) by (nonlinear_arith)
            requires
                n == s.len(),
                squares == sum_sq(s),
        ;
        assert(sum * sum >= 0) by (nonlinear_arith);
    }
    let nn = n as u128;
    proof {
        assert(nn * (nn - 1) <= u64::MAX * u64::MAX) by (nonlinear_arith)
            requires
                2 <= nn <= u64::MAX,
        ;
    }
    Ok(Ratio { numerator: total - square_of_sum, denominator: nn * (nn - 1) })
}

/// A distribution whose values all equal `c` has mean `c` and variance zero.
pub proof fn lemma_constant_distribution(s: Seq<i64>, c: i64)
    requires
        forall|i: int| 0 <= i < s.len() ==> #[trigger] s[i] == c,
    ensures
        seq_sum(s) == s.len() * c,
        spread(s) == 0,
{
    lemma_constant_sums(s, c);
    let n = s.len() as int;
    let ci = c as int;
    assert(n * (n * (ci * ci)) == (n * ci) * (n * ci)) by (nonlinear_arith);
}

proof fn lemma_constant_sums(s: Seq<i64>, c: i64)
    requires
        forall|i: int| 0 <= i < s.len() ==> #[trigger] s[i] == c,
    ensures
        seq_sum(s) == s.len() * c,
        sum_sq(s) == s.len() * (c * c),
    decreases s.len(),
{
    if s.len() > 0 {
        let p = s.drop_last();
        assert forall|i: int| 0 <= i < p.len() implies #[trigger] p[i] == c by {
            assert(p[i] == s[i]);
        }
        lemma_constant_sums(p, c);
        assert(s.last() == s[s.len() - 1]);
        let n = p.len() as int;
        let ci = c as int;
        assert(n * (ci * ci) + ci * ci == (n + 1) * (ci * ci)) by (nonlinear_arith);
        assert(n * ci + ci == (n + 1) * ci) by (nonlinear_arith);
    }
}

} // verus!
