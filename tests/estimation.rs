use bootstrap_estimator::bootstrap::{
    bootstrap_sums, random_sample_with_replacement, sample_ground_truth,
};
use bootstrap_estimator::parser::parse_select_statement;
use bootstrap_estimator::query::{copy_row, get_query_result, Field, Row};
use bootstrap_estimator::sampling::{create_sample, sample_size, SampleFraction};
use bootstrap_estimator::stats::{calculate_mean, calculate_variance, Ratio};
use bootstrap_estimator::EstimateError;
use rand::rngs::StdRng;
use rand::SeedableRng;

fn row_of(pairs: &[(&str, &str)]) -> Row {
    Row {
        fields: pairs
            .iter()
            .map(|(n, v)| Field { name: n.to_string(), value: v.to_string() })
            .collect(),
    }
}

fn x_rows(values: &[&str]) -> Vec<Row> {
    values.iter().map(|v| row_of(&[("id", "0"), ("x", v)])).collect()
}

fn whole() -> SampleFraction {
    SampleFraction { numerator: 1, denominator: 1 }
}

fn ten_rows() -> Vec<Row> {
    x_rows(&["1", "5", "12", "15", "8", "21", "3", "17", "9", "14"])
}

#[test]
fn end_to_end_ten_rows() {
    let rows = ten_rows();
    let select = parse_select_statement("SELECT COUNT(*) FROM t r WHERE x > 10 AND x < 20").unwrap();
    let mut rng = StdRng::seed_from_u64(11);
    let sample = create_sample(&rows, &whole(), &mut rng);
    assert_eq!(sample.len(), 10);
    let in_order = get_query_result(&rows, &select);
    assert_eq!(in_order, vec![0, 0, 1, 1, 0, 0, 0, 1, 0, 1]);
    let indicators = get_query_result(&sample, &select);
    assert_eq!(indicators.iter().filter(|v| **v == 1).count(), 4);
    assert_eq!(indicators.iter().filter(|v| **v == 0).count(), 6);
    assert_eq!(sample_ground_truth(&indicators, &whole()), 4);
    // a resample that reproduces the same multiset sums to 4
    let distribution = vec![sample_ground_truth(&in_order, &whole())];
    assert_eq!(distribution, vec![4]);
    assert_eq!(calculate_mean(&distribution), Ok(Ratio { numerator: 4, denominator: 1 }));
    assert_eq!(calculate_variance(&distribution), Err(EstimateError::InvalidArgument));
}

#[test]
fn one_resample_has_one_value() {
    let indicators = vec![0, 0, 1, 1, 0, 0, 0, 1, 0, 1];
    let mut rng = StdRng::seed_from_u64(3);
    let sums = bootstrap_sums(&indicators, 1, &whole(), &mut rng).unwrap();
    assert_eq!(sums.len(), 1);
    assert!(sums[0] >= 0 && sums[0] <= 10);
    assert_eq!(calculate_variance(&sums), Err(EstimateError::InvalidArgument));
}

#[test]
fn sample_size_is_floor_of_fraction() {
    let rows = ten_rows();
    let mut rng = StdRng::seed_from_u64(5);
    let fraction = SampleFraction { numerator: 1, denominator: 3 };
    let sample = create_sample(&rows, &fraction, &mut rng);
    assert_eq!(sample.len(), 3);
    assert_eq!(sample_size(10, &fraction), 3);
    assert_eq!(sample_size(10, &SampleFraction { numerator: 7, denominator: 10 }), 7);
    assert_eq!(sample_size(9, &SampleFraction { numerator: 1, denominator: 10 }), 0);
}

#[test]
fn sample_repeats_no_row() {
    let values: Vec<String> = (0..50).map(|i| i.to_string()).collect();
    let refs: Vec<&str> = values.iter().map(|s| s.as_str()).collect();
    let rows = x_rows(&refs);
    let mut rng = StdRng::seed_from_u64(17);
    let sample = create_sample(&rows, &SampleFraction { numerator: 1, denominator: 2 }, &mut rng);
    assert_eq!(sample.len(), 25);
    let mut seen: Vec<String> = sample.iter().map(|r| r.fields[1].value.clone()).collect();
    seen.sort();
    seen.dedup();
    assert_eq!(seen.len(), 25);
    for v in &seen {
        assert!(values.contains(v));
    }
}

#[test]
fn whole_fraction_keeps_every_row() {
    let rows = ten_rows();
    let mut rng = StdRng::seed_from_u64(23);
    let sample = create_sample(&rows, &whole(), &mut rng);
    let mut got: Vec<String> = sample.iter().map(|r| r.fields[1].value.clone()).collect();
    let mut want: Vec<String> = rows.iter().map(|r| r.fields[1].value.clone()).collect();
    got.sort();
    want.sort();
    assert_eq!(got, want);
}

#[test]
fn empty_sample_edge_case() {
    let rows = ten_rows();
    let select = parse_select_statement("SELECT COUNT(*) FROM t r WHERE x > 10 AND x < 20").unwrap();
    let mut rng = StdRng::seed_from_u64(1);
    let fraction = SampleFraction { numerator: 1, denominator: 100 };
    let sample = create_sample(&rows, &fraction, &mut rng);
    assert!(sample.is_empty());
    let indicators = get_query_result(&sample, &select);
    assert!(indicators.is_empty());
    assert_eq!(
        bootstrap_sums(&indicators, 1000, &fraction, &mut rng),
        Err(EstimateError::InvalidArgument)
    );
}

#[test]
fn zero_fraction_is_invalid_for_bootstrap() {
    let mut rng = StdRng::seed_from_u64(1);
    let zero = SampleFraction { numerator: 0, denominator: 1 };
    assert_eq!(bootstrap_sums(&vec![1, 0], 5, &zero, &mut rng), Err(EstimateError::InvalidArgument));
}

#[test]
fn bootstrap_distribution_has_requested_length_and_range() {
    let indicators = vec![1, 0, 1, 1, 0, 0, 1, 0];
    let mut rng = StdRng::seed_from_u64(99);
    let tenth = SampleFraction { numerator: 1, denominator: 10 };
    let sums = bootstrap_sums(&indicators, 200, &tenth, &mut rng).unwrap();
    assert_eq!(sums.len(), 200);
    for s in &sums {
        assert!(*s >= 0 && *s <= 80);
        assert_eq!(*s % 10, 0);
    }
    // some resample differs from the population
    assert!(sums.iter().any(|s| *s != 40));
}

#[test]
fn constant_population_gives_constant_distribution() {
    let indicators = vec![1, 1, 1];
    let mut rng = StdRng::seed_from_u64(4);
    let sums = bootstrap_sums(&indicators, 10, &whole(), &mut rng).unwrap();
    assert_eq!(sums, vec![3; 10]);
}

#[test]
fn resample_draws_from_population() {
    let data = vec![7, 9, 7, 9, 7];
    let mut rng = StdRng::seed_from_u64(8);
    let r = random_sample_with_replacement(&data, 40, &mut rng);
    assert_eq!(r.len(), 40);
    assert!(r.iter().all(|v| *v == 7 || *v == 9));
    assert!(r.contains(&7) && r.contains(&9));
    assert!(random_sample_with_replacement(&vec![], 0, &mut rng).is_empty());
}

#[test]
fn ground_truth_truncates_scaled_sum() {
    let third = SampleFraction { numerator: 3, denominator: 10 };
    // 2 / 0.3 = 6.66..., truncated to 6
    assert_eq!(sample_ground_truth(&vec![1, 0, 1], &third), 6);
    assert_eq!(sample_ground_truth(&vec![], &third), 0);
}

#[test]
fn constant_distribution_mean_and_variance() {
    let d = vec![7; 5];
    assert_eq!(calculate_mean(&d), Ok(Ratio { numerator: 35, denominator: 5 }));
    assert_eq!(calculate_variance(&d), Ok(Ratio { numerator: 0, denominator: 20 }));
}

#[test]
fn variance_exact_value() {
    // values 2, 4, 4, 4, 5, 5, 7, 9: n=8, sum=40, sum of squares=232
    let d = vec![2, 4, 4, 4, 5, 5, 7, 9];
    assert_eq!(calculate_mean(&d), Ok(Ratio { numerator: 40, denominator: 8 }));
    // 8*232 - 1600 = 256, over 8*7 = 56: 32/7
    assert_eq!(calculate_variance(&d), Ok(Ratio { numerator: 256, denominator: 56 }));
}

#[test]
fn mean_of_empty_is_invalid() {
    assert_eq!(calculate_mean(&vec![]), Err(EstimateError::InvalidArgument));
    assert_eq!(calculate_variance(&vec![]), Err(EstimateError::InvalidArgument));
}

#[test]
fn variance_out_of_range() {
    let d = vec![i64::MAX, i64::MIN, i64::MAX];
    assert_eq!(calculate_variance(&d), Err(EstimateError::OutOfRange));
}

#[test]
fn conditions_on_different_columns_give_zero() {
    let rows = vec![row_of(&[("x", "15"), ("y", "15")])];
    let select = parse_select_statement("SELECT COUNT(*) FROM t r WHERE x > 10 AND y < 20").unwrap();
    assert_eq!(get_query_result(&rows, &select), vec![0]);
}

#[test]
fn non_numeric_field_counts_as_zero() {
    let rows = x_rows(&["abc", "", "1e5", "-1", "0"]);
    let select = parse_select_statement("SELECT COUNT(*) FROM t r WHERE x > -1 AND x < 1").unwrap_err();
    assert_eq!(select, EstimateError::SyntaxError);
    let select = parse_select_statement("SELECT COUNT(*) FROM t r WHERE x = 0 AND x < 1").unwrap();
    assert_eq!(get_query_result(&rows, &select), vec![1, 1, 1, 0, 1]);
}

#[test]
fn decimal_values_compare_exactly() {
    let rows = x_rows(&["10.5", "10", "+10.000", "19.99", "20.0", "-15.5", " 12"]);
    let select =
        parse_select_statement("SELECT COUNT(*) FROM t r WHERE x > 10.0 AND x < 20").unwrap();
    assert_eq!(get_query_result(&rows, &select), vec![1, 0, 0, 1, 0, 0, 0]);
}

#[test]
fn equality_comparator() {
    let rows = x_rows(&["5", "5.00", "6"]);
    let select = parse_select_statement("SELECT COUNT(*) FROM t r WHERE x = 5 AND x < 6").unwrap();
    assert_eq!(get_query_result(&rows, &select), vec![1, 1, 0]);
}

#[test]
fn missing_column_gives_zero() {
    let rows = vec![row_of(&[("y", "15")])];
    let select = parse_select_statement("SELECT COUNT(*) FROM t r WHERE x > 10 AND x < 20").unwrap();
    assert_eq!(get_query_result(&rows, &select), vec![0]);
}

#[test]
fn copy_row_keeps_fields() {
    let r = row_of(&[("a", "1"), ("b", "two")]);
    let c = copy_row(&r);
    assert_eq!(c.fields.len(), 2);
    assert_eq!(c.fields[1].name, "b");
    assert_eq!(c.fields[1].value, "two");
}
