use vstd::prelude::*;

use rand::rngs::StdRng;

use crate::query::{copy_row, Row};
use crate::random::choose_positions;

verus! {

/// A sample fraction as the exact ratio `numerator / denominator`.
#[derive(Clone, Copy, Debug, PartialEq, Eq, Structural)]
pub struct SampleFraction {
    pub numerator: u64,
    pub denominator: u64,
}

impl SampleFraction {
    /// The fraction is above zero.
    pub open spec fn is_positive(&self) -> bool {
        self.numerator > 0 && self.denominator > 0
    }

    /// The fraction lies in `(0, 1]`.
    pub open spec fn is_valid(&self) -> bool {
        0 < self.numerator <= self.denominator
    }
}

/// `floor(n * fraction)`.
pub open spec fn sample_size_spec(n: int, f: SampleFraction) -> int {
    n * (f.numerator as int) / (f.denominator as int)
}

/// Row `idx[j]` of `rows` is the `j`-th row of `sample`, and no position repeats.
pub open spec fn drawn_at(idx: Seq<int>, sample: Seq<Row>, rows: Seq<Row>) -> bool {
    &&& idx.len() == sample.len()
    &&& forall|j: int|
        0 <= j < idx.len() ==> 0 <= #[trigger] idx[j] < rows.len() && sample[j].fields@
            == rows[idx[j]].fields@
    &&& forall|j: int, k: int| 0 <= j < k < idx.len() ==> #[trigger] idx[j] != #[trigger] idx[k]
}

/// `sample` is a draw without replacement from `rows`.
pub open spec fn drawn_without_replacement(sample: Seq<Row>, rows: Seq<Row>) -> bool {
    exists|idx: Seq<int>| drawn_at(idx, sample, rows)
}

/// With the whole table as the fraction, the sample is as long as the table,
/// and never longer for any valid fraction.
pub proof fn lemma_sample_size_bounds(n: nat, f: SampleFraction)
    requires
        f.is_valid(),
    ensures
        0 <= sample_size_spec(n as int, f) <= n,
        f.numerator == f.denominator ==> sample_size_spec(n as int, f) == n,
{
    let num = f.numerator as int;
    let den = f.denominator as int;
    assert(n * num <= n * den) by (nonlinear_arith)
        requires
            num <= den,
    ;
    assert(n * num >= 0) by (nonlinear_arith)
        requires
            num >= 0,
    ;
    vstd::arithmetic::div_mod::lemma_div_is_ordered(n * num, n * den, den);
    vstd::arithmetic::div_mod::lemma_div_pos_is_pos(n * num, den);
    vstd::arithmetic::div_mod::lemma_div_by_multiple(n as int, den);
}

/// A fraction below `1 / n` gives an empty sample of `n` rows.
pub proof fn lemma_small_fraction_empty_sample(n: nat, f: SampleFraction)
    requires
        f.is_valid(),
        n * f.numerator < f.denominator,
    ensures
        sample_size_spec(n as int, f) == 0,
{
    let num = f.numerator as int;
    assert(n * num >= 0) by (nonlinear_arith)
        requires
            num >= 0,
    ;
    vstd::arithmetic::div_mod::lemma_basic_div(n * num, f.denominator as int);
}

/// `floor(n * fraction)`, at most `n`.
pub fn sample_size(n: usize, fraction: &SampleFraction) -> (r: usize)
    requires
        fraction.is_valid(),
    ensures
        r == sample_size_spec(n as int, *fraction),
        r <= n,
{
    let num = fraction.numerator as u128;
    let den = fraction.denominator as u128;
    proof {
        lemma_sample_size_bounds(n as nat, *fraction);
        assert(0 <= n * num <= u64::MAX * u64::MAX) by (nonlinear_arith)
            requires
                n <= u64::MAX,
                num <= u64::MAX,
                n >= 0,
                num >= 0,
        ;
    }
    ((n as u128 * num) / den) as usize
}

/// Draws `floor(|rows| * fraction)` rows of `rows` without replacement, with
/// `rng` as the source of chance.
pub fn create_sample(rows: &Vec<Row>, fraction: &SampleFraction, rng: &mut StdRng) -> (r: Vec<Row>)
    requires
        fraction.is_valid(),
    ensures
        r@.len() == sample_size_spec(rows@.len() as int, *fraction),
        drawn_without_replacement(r@, rows@),
{
    let size = sample_size(rows.len(), fraction);
    let positions = choose_positions(rng, rows.len(), size);
    let mut sample: Vec<Row> = Vec::new();
    let mut j: usize = 0;
    while j < positions.len()
        invariant
            j <= positions@.len(),
            positions@.len() == size <= rows@.len(),
            forall|i: int| 0 <= i < positions@.len() ==> #[trigger] positions@[i] < rows@.len(),
            sample@.len() == j,
            forall|i: int|
                0 <= i < j ==> #[trigger] sample@[i].fields@ == rows@[positions@[i] as int].fields@,
        decreases positions@.len() - j,
    {
        sample.push(copy_row(&rows[positions[j]]));
        j += 1;
    }
    let ghost idx = positions@.map_values(|p: usize| p as int);
    assert(drawn_at(idx, sample@, rows@));
    sample
}

} // verus!
