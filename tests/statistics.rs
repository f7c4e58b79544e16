use promql_stats::moments::{known_mean_divisor, sample_divisor};
use promql_stats::quantile::{
    classify_fraction, order_statistics, quantile_plan, FractionClass, OrderStatistics,
    QuantilePlan, Saturation,
};
use promql_stats::sample_order::{sample_le, sorted_samples};

fn bits(values: &[f64]) -> Vec<u64> {
    values.iter().map(|v| v.to_bits()).collect()
}

#[test]
fn test_quantile() {
    let data = bits(&[4.0, 2.0, 1.0, 3.0, 5.0]);
    let phi_quantile: f64 = 0.5;
    assert_eq!(quantile_plan(data.len(), phi_quantile.to_bits()), QuantilePlan::Interpolate);
    let sorted = sorted_samples(&data);
    assert_eq!(sorted, bits(&[1.0, 2.0, 3.0, 4.0, 5.0]));
    let rank = phi_quantile * (sorted.len() - 1) as f64;
    let index = rank as usize;
    assert_eq!(index, 2);
    let got = match order_statistics(&sorted, index) {
        OrderStatistics::Between(lower, upper) => {
            let (lower, upper) = (f64::from_bits(lower), f64::from_bits(upper));
            lower + (upper - lower) * (rank - index as f64)
        }
        OrderStatistics::Exact(value) => f64::from_bits(value),
    };
    assert_eq!(got, 3.0);
}

#[test]
fn sorted_copy_leaves_input_and_orders_signs() {
    let data = bits(&[0.0, -0.0, 3.5, f64::NEG_INFINITY, -2.0, f64::INFINITY, -7.25, 1.0]);
    let before = data.clone();
    let sorted = sorted_samples(&data);
    assert_eq!(data, before);
    assert_eq!(
        sorted,
        bits(&[f64::NEG_INFINITY, -7.25, -2.0, -0.0, 0.0, 1.0, 3.5, f64::INFINITY])
    );
}

#[test]
fn sorted_copy_keeps_duplicates() {
    let sorted = sorted_samples(&bits(&[2.0, 1.0, 2.0, 1.0]));
    assert_eq!(sorted, bits(&[1.0, 1.0, 2.0, 2.0]));
    assert!(sorted_samples(&Vec::new()).is_empty());
}

#[test]
fn sample_le_follows_total_order() {
    assert!(sample_le((-1.0f64).to_bits(), 1.0f64.to_bits()));
    assert!(!sample_le(1.0f64.to_bits(), (-1.0f64).to_bits()));
    assert!(sample_le((-5.0f64).to_bits(), (-1.0f64).to_bits()));
    assert!(!sample_le((-1.0f64).to_bits(), (-5.0f64).to_bits()));
    assert!(sample_le((-0.0f64).to_bits(), 0.0f64.to_bits()));
    assert!(!sample_le(0.0f64.to_bits(), (-0.0f64).to_bits()));
    assert!(sample_le(2.0f64.to_bits(), 2.0f64.to_bits()));
}

#[test]
fn fractions_are_classified() {
    assert_eq!(classify_fraction(f64::NAN.to_bits()), FractionClass::NotANumber);
    assert_eq!(classify_fraction((-f64::NAN).to_bits()), FractionClass::NotANumber);
    assert_eq!(classify_fraction((-0.0f64).to_bits()), FractionClass::InRange);
    assert_eq!(classify_fraction(0.0f64.to_bits()), FractionClass::InRange);
    assert_eq!(classify_fraction(0.25f64.to_bits()), FractionClass::InRange);
    assert_eq!(classify_fraction(1.0f64.to_bits()), FractionClass::InRange);
    assert_eq!(classify_fraction((1.0f64.to_bits()) + 1), FractionClass::AboveRange);
    assert_eq!(classify_fraction(2.0f64.to_bits()), FractionClass::AboveRange);
    assert_eq!(classify_fraction(f64::INFINITY.to_bits()), FractionClass::AboveRange);
    assert_eq!(classify_fraction((-1e-300f64).to_bits()), FractionClass::BelowRange);
    assert_eq!(classify_fraction(f64::NEG_INFINITY.to_bits()), FractionClass::BelowRange);
}

#[test]
fn sentinels_win_over_missing_samples() {
    assert_eq!(
        quantile_plan(0, 2.0f64.to_bits()),
        QuantilePlan::Saturated(Saturation::PositiveInfinity)
    );
    assert_eq!(
        quantile_plan(0, (-0.5f64).to_bits()),
        QuantilePlan::Saturated(Saturation::NegativeInfinity)
    );
    assert_eq!(
        quantile_plan(0, f64::NAN.to_bits()),
        QuantilePlan::Saturated(Saturation::NotANumber)
    );
    assert_eq!(
        quantile_plan(5, 1.5f64.to_bits()),
        QuantilePlan::Saturated(Saturation::PositiveInfinity)
    );
    assert_eq!(
        quantile_plan(5, (-3.0f64).to_bits()),
        QuantilePlan::Saturated(Saturation::NegativeInfinity)
    );
}

#[test]
fn empty_samples_have_no_quantile() {
    assert_eq!(quantile_plan(0, 0.5f64.to_bits()), QuantilePlan::NoValue);
    assert_eq!(quantile_plan(0, 0.0f64.to_bits()), QuantilePlan::NoValue);
    assert_eq!(quantile_plan(0, 1.0f64.to_bits()), QuantilePlan::NoValue);
    assert_eq!(sample_divisor(0), None);
}

#[test]
fn single_sample_quantiles_read_it_alone() {
    let sorted = sorted_samples(&bits(&[10.0]));
    for q in [0.0f64, 1.0f64] {
        assert_eq!(quantile_plan(1, q.to_bits()), QuantilePlan::Interpolate);
        let index = (q * 0.0) as usize;
        assert_eq!(order_statistics(&sorted, index), OrderStatistics::Exact(10.0f64.to_bits()));
    }
}

#[test]
fn extreme_fractions_read_minimum_and_maximum() {
    let sorted = sorted_samples(&bits(&[4.0, -2.0, 9.0, 1.0]));
    assert_eq!(
        order_statistics(&sorted, 0),
        OrderStatistics::Between((-2.0f64).to_bits(), 1.0f64.to_bits())
    );
    assert_eq!(order_statistics(&sorted, 3), OrderStatistics::Exact(9.0f64.to_bits()));
    assert_eq!(
        order_statistics(&sorted, 2),
        OrderStatistics::Between(4.0f64.to_bits(), 9.0f64.to_bits())
    );
}

#[test]
fn mean_and_variance_of_four_samples() {
    let data = [1.0f64, 2.0, 3.0, 4.0];
    let divisor = sample_divisor(data.len()).unwrap();
    assert_eq!(divisor, 4);
    let mean = data.iter().sum::<f64>() / divisor as f64;
    assert_eq!(mean, 2.5);
    let variance = data.iter().map(|v| (mean - v) * (mean - v)).sum::<f64>() / divisor as f64;
    assert_eq!(variance, 1.25);
    assert!((variance.sqrt() - 1.1180339887).abs() < 1e-9);
}

#[test]
fn known_mean_count_only_guards() {
    assert_eq!(known_mean_divisor(3, 0), None);
    assert_eq!(known_mean_divisor(3, -4), None);
    assert_eq!(known_mean_divisor(3, 7), Some(3));
    assert_eq!(known_mean_divisor(0, 1), Some(0));
    assert_eq!(sample_divisor(6), Some(6));
}

#[test]
fn sorted_copy_ignores_arrangement() {
    let a = sorted_samples(&bits(&[3.0, -1.0, 2.0, 2.0, 0.5]));
    let b = sorted_samples(&bits(&[2.0, 0.5, 2.0, 3.0, -1.0]));
    assert_eq!(a, b);
}

#[test]
fn nan_samples_sort_to_the_ends() {
    let sorted = sorted_samples(&bits(&[1.0, f64::NAN, -f64::NAN, f64::NEG_INFINITY]));
    assert_eq!(sorted[0], (-f64::NAN).to_bits());
    assert_eq!(sorted[1], f64::NEG_INFINITY.to_bits());
    assert_eq!(sorted[2], 1.0f64.to_bits());
    assert_eq!(sorted[3], f64::NAN.to_bits());
}
