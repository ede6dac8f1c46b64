use kalax::features::catalog::Catalog;
use kalax::features::common::{FeatureFunction, FeatureFunctionReturn};
use kalax::features::minimal::{
    length, AbsoluteMaximum, Length, Maximum, Mean, Median, MinimalFeatureSet, Minimum,
    RootMeanSquare, StandardDeviation, Statistics, SumValues, Variance,
};

fn assert_float_eq(a: f64, b: f64) {
    assert!((a - b).abs() < 1e-10, "assertion failed: `{:?}` != `{:?}`", a, b);
}

fn absolute_maximum(series: &[f64]) -> f64 {
    series.iter().map(|&x| x.abs()).fold(f64::NEG_INFINITY, f64::max)
}

fn mean(series: &[f64]) -> f64 {
    series.iter().sum::<f64>() / series.len() as f64
}

fn median(series: &[f64]) -> f64 {
    let mut sorted = series.to_vec();
    sorted.sort_by(|a, b| a.partial_cmp(b).unwrap());
    let len = sorted.len();
    if len % 2 == 0 {
        (sorted[len / 2 - 1] + sorted[len / 2]) / 2.0
    } else {
        sorted[len / 2]
    }
}

fn variance(series: &[f64]) -> f64 {
    let m = mean(series);
    series.iter().map(|&x| (x - m).powi(2)).sum::<f64>() / series.len() as f64
}

fn standard_deviation(series: &[f64]) -> f64 {
    variance(series).sqrt()
}

fn maximum(series: &[f64]) -> f64 {
    series.iter().copied().fold(f64::NEG_INFINITY, f64::max)
}

fn minimum(series: &[f64]) -> f64 {
    series.iter().copied().fold(f64::INFINITY, f64::min)
}

fn root_mean_square(series: &[f64]) -> f64 {
    (series.iter().map(|&x| x * x).sum::<f64>() / series.len() as f64).sqrt()
}

fn sum_values(series: &[f64]) -> f64 {
    series.iter().sum()
}

#[test]
fn minimal_test_length() {
    let series = [1.0, 2.0, 3.0];
    assert_eq!(length(&series), 3);

    let empty: [f64; 0] = [];
    assert_eq!(length(&empty), 0);

    let single = [1.0];
    assert_eq!(length(&single), 1);
}

#[test]
fn statistical_test_length() {
    let series = [1.0, 2.0, 3.0];
    assert_eq!(length(&series), 3);

    let empty: [f64; 0] = [];
    assert_eq!(length(&empty), 0);

    let single = [1.0];
    assert_eq!(length(&single), 1);
}

#[test]
fn oop_test_absolute_maximum() {
    let series = [1.0, -3.0, 2.0];
    let result = AbsoluteMaximum::new().apply(absolute_maximum(&series));
    assert_float_eq(result[0].value, 3.0);

    let series_pos = [1.0, 2.0, 0.5];
    let result = AbsoluteMaximum::new().apply(absolute_maximum(&series_pos));
    assert_float_eq(result[0].value, 2.0);

    let series_zero = [0.0];
    let result = AbsoluteMaximum::new().apply(absolute_maximum(&series_zero));
    assert_float_eq(result[0].value, 0.0);
}

#[test]
fn oop_test_mean() {
    let series = [1.0, 2.0, 3.0, 4.0, 5.0];
    let result = Mean::new().apply(mean(&series));
    assert_float_eq(result[0].value, 3.0);

    let single = [7.0];
    let result = Mean::new().apply(mean(&single));
    assert_float_eq(result[0].value, 7.0);

    let negative = [-1.0, 1.0, -1.0, 1.0];
    let result = Mean::new().apply(mean(&negative));
    assert_float_eq(result[0].value, 0.0);

    let zeros = [0.0, 0.0, 0.0];
    let result = Mean::new().apply(mean(&zeros));
    assert_float_eq(result[0].value, 0.0);
}

#[test]
fn oop_test_median() {
    let odd = [1.0, 2.0, 3.0, 4.0, 5.0];
    let result = Median::new().apply(median(&odd));
    assert_float_eq(result[0].value, 3.0);

    let even = [1.0, 2.0, 3.0, 4.0];
    let result = Median::new().apply(median(&even));
    assert_float_eq(result[0].value, 2.5);

    let single = [7.0];
    let result = Median::new().apply(median(&single));
    assert_float_eq(result[0].value, 7.0);

    let negative = [-5.0, -1.0, 0.0, 2.0, 10.0];
    let result = Median::new().apply(median(&negative));
    assert_float_eq(result[0].value, 0.0);

    let unsorted = [3.0, 1.0, 4.0, 1.0, 5.0, 9.0];
    let result = Median::new().apply(median(&unsorted));
    assert_float_eq(result[0].value, 3.5);
}

#[test]
fn oop_test_variance() {
    let series = [1.0, 2.0, 3.0, 4.0, 5.0];
    let result = Variance::new().apply(variance(&series));
    assert_float_eq(result[0].value, 2.0);

    let constant = [3.0, 3.0, 3.0];
    let result = Variance::new().apply(variance(&constant));
    assert_float_eq(result[0].value, 0.0);

    let single = [5.0];
    let result = Variance::new().apply(variance(&single));
    assert_float_eq(result[0].value, 0.0);

    let negative = [-2.0, -1.0, 0.0, 1.0, 2.0];
    let result = Variance::new().apply(variance(&negative));
    assert_float_eq(result[0].value, 2.0);
}

#[test]
fn oop_test_standard_deviation() {
    let series = [1.0, 2.0, 3.0, 4.0, 5.0];
    let result = StandardDeviation::new().apply(standard_deviation(&series));
    assert_float_eq(result[0].value, 2.0f64.sqrt());

    let constant = [3.0, 3.0, 3.0];
    let result = StandardDeviation::new().apply(standard_deviation(&constant));
    assert_float_eq(result[0].value, 0.0);

    let single = [5.0];
    let result = StandardDeviation::new().apply(standard_deviation(&single));
    assert_float_eq(result[0].value, 0.0);
}

#[test]
fn oop_test_length() {
    let series = [1.0, 2.0, 3.0];
    let result = Length::new().apply(length(&series) as f64);
    assert_float_eq(result[0].value, 3.0);

    let empty: [f64; 0] = [];
    let result = Length::new().apply(length(&empty) as f64);
    assert_float_eq(result[0].value, 0.0);

    let single = [1.0];
    let result = Length::new().apply(length(&single) as f64);
    assert_float_eq(result[0].value, 1.0);
}

#[test]
fn oop_test_maximum() {
    let series = [1.0, 5.0, 3.0, 9.0, 2.0];
    let result = Maximum::new().apply(maximum(&series));
    assert_float_eq(result[0].value, 9.0);

    let negative = [-5.0, -1.0, -10.0];
    let result = Maximum::new().apply(maximum(&negative));
    assert_float_eq(result[0].value, -1.0);

    let single = [7.0];
    let result = Maximum::new().apply(maximum(&single));
    assert_float_eq(result[0].value, 7.0);
}

#[test]
fn oop_test_minimum() {
    let series = [1.0, 5.0, 3.0, 9.0, 2.0];
    let result = Minimum::new().apply(minimum(&series));
    assert_float_eq(result[0].value, 1.0);

    let negative = [-5.0, -1.0, -10.0];
    let result = Minimum::new().apply(minimum(&negative));
    assert_float_eq(result[0].value, -10.0);

    let single = [7.0];
    let result = Minimum::new().apply(minimum(&single));
    assert_float_eq(result[0].value, 7.0);
}

#[test]
fn oop_test_root_mean_square() {
    let series = [3.0, 4.0];
    let expected: f64 = ((9.0_f64 + 16.0) / 2.0).sqrt();
    let result = RootMeanSquare::new().apply(root_mean_square(&series));
    assert_float_eq(result[0].value, expected);

    let zeros = [0.0, 0.0, 0.0];
    let result = RootMeanSquare::new().apply(root_mean_square(&zeros));
    assert_float_eq(result[0].value, 0.0);

    let single = [5.0];
    let result = RootMeanSquare::new().apply(root_mean_square(&single));
    assert_float_eq(result[0].value, 5.0);

    let negative = [-3.0, -4.0];
    let result = RootMeanSquare::new().apply(root_mean_square(&negative));
    assert_float_eq(result[0].value, expected);
}

#[test]
fn oop_test_sum_values() {
    let series = [1.0, 2.0, 3.0, 4.0];
    let result = SumValues::new().apply(sum_values(&series));
    assert_float_eq(result[0].value, 10.0);

    let negative = [1.0, -2.0, 3.0, -4.0];
    let result = SumValues::new().apply(sum_values(&negative));
    assert_float_eq(result[0].value, -2.0);

    let empty: [f64; 0] = [];
    let result = SumValues::new().apply(sum_values(&empty));
    assert_float_eq(result[0].value, 0.0);

    let single = [5.0];
    let result = SumValues::new().apply(sum_values(&single));
    assert_float_eq(result[0].value, 5.0);

    let zeros = [0.0, 0.0, 0.0];
    let result = SumValues::new().apply(sum_values(&zeros));
    assert_float_eq(result[0].value, 0.0);
}

#[test]
fn every_descriptor_has_its_canonical_name() {
    assert_eq!(AbsoluteMaximum::new().name(), "absolute_maximum");
    assert_eq!(Mean::new().name(), "mean");
    assert_eq!(Median::new().name(), "median");
    assert_eq!(Variance::new().name(), "variance");
    assert_eq!(StandardDeviation::new().name(), "standard_deviation");
    assert_eq!(Length::new().name(), "length");
    assert_eq!(Maximum::new().name(), "maximum");
    assert_eq!(Minimum::new().name(), "minimum");
    assert_eq!(RootMeanSquare::new().name(), "root_mean_square");
    assert_eq!(SumValues::new().name(), "sum_values");
}

#[test]
fn every_descriptor_reports_one_result_under_its_name() {
    let one =
        |name: &str, value: f64| vec![FeatureFunctionReturn { name: name.to_string(), value }];
    assert_eq!(AbsoluteMaximum::new().apply(1.5), one("absolute_maximum", 1.5));
    assert_eq!(Mean::new().apply(2.5), one("mean", 2.5));
    assert_eq!(Median::new().apply(3.5), one("median", 3.5));
    assert_eq!(Variance::new().apply(4.5), one("variance", 4.5));
    assert_eq!(StandardDeviation::new().apply(5.5), one("standard_deviation", 5.5));
    assert_eq!(Length::new().apply(6.5), one("length", 6.5));
    assert_eq!(Maximum::new().apply(7.5), one("maximum", 7.5));
    assert_eq!(Minimum::new().apply(8.5), one("minimum", 8.5));
    assert_eq!(RootMeanSquare::new().apply(9.5), one("root_mean_square", 9.5));
    assert_eq!(SumValues::new().apply(10.5), one("sum_values", 10.5));
}

#[test]
fn the_minimal_catalog_reports_ten_results_in_its_order() {
    let out = MinimalFeatureSet::new().apply(Statistics {
        absolute_maximum: 1.0,
        mean: 2.0,
        median: 3.0,
        variance: 4.0,
        standard_deviation: 5.0,
        length: 6.0,
        maximum: 7.0,
        minimum: 8.0,
        root_mean_square: 9.0,
        sum_values: 10.0,
    });
    let expected: Vec<FeatureFunctionReturn<f64>> = [
        ("absolute_maximum", 1.0),
        ("mean", 2.0),
        ("median", 3.0),
        ("variance", 4.0),
        ("standard_deviation", 5.0),
        ("length", 6.0),
        ("maximum", 7.0),
        ("minimum", 8.0),
        ("root_mean_square", 9.0),
        ("sum_values", 10.0),
    ]
    .iter()
    .map(|(name, value)| FeatureFunctionReturn { name: name.to_string(), value: *value })
    .collect();
    assert_eq!(out, expected);
}

#[test]
fn the_catalog_carries_any_value_type() {
    let out = Mean::new().apply("three");
    assert_eq!(out.len(), 1);
    assert_eq!(out[0].name, "mean");
    assert_eq!(out[0].value, "three");
}

/// Two capabilities of one type, told apart by a tag.
enum Ends {
    First,
    Last,
    Both,
    Nothing,
}

impl FeatureFunction<f64> for Ends {
    fn apply(&self, series: &[f64]) -> Vec<FeatureFunctionReturn<f64>> {
        let first = FeatureFunctionReturn { name: "first".to_string(), value: series[0] };
        let last =
            FeatureFunctionReturn { name: "last".to_string(), value: series[series.len() - 1] };
        match self {
            Ends::First => vec![first],
            Ends::Last => vec![last],
            Ends::Both => vec![first, last],
            Ends::Nothing => vec![],
        }
    }
}

#[test]
fn a_catalog_applies_its_capabilities_in_order() {
    let catalog = Catalog::new(vec![Ends::Last, Ends::Nothing, Ends::Both, Ends::First]);
    let names: Vec<String> =
        catalog.apply(&[1.0, 2.0, 3.0]).into_iter().map(|result| result.name).collect();
    assert_eq!(names, vec!["last", "first", "last", "first"]);
    let values: Vec<f64> =
        catalog.apply(&[1.0, 2.0, 3.0]).into_iter().map(|result| result.value).collect();
    assert_eq!(values, vec![3.0, 1.0, 3.0, 1.0]);
}

#[test]
fn a_catalog_without_capabilities_reports_nothing() {
    let catalog: Catalog<Ends> = Catalog::new(vec![]);
    assert_eq!(catalog.apply(&[1.0]), vec![]);
}

#[test]
fn a_catalog_is_a_capability() {
    let inner = Catalog::new(vec![Ends::First, Ends::Last]);
    let outer = Catalog::new(vec![inner, Catalog::new(vec![Ends::Both])]);
    let values: Vec<f64> =
        outer.apply(&[4.0, 5.0]).into_iter().map(|result| result.value).collect();
    assert_eq!(values, vec![4.0, 5.0, 4.0, 5.0]);
}
