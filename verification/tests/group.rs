use kalax::error::GroupProcessingError;
use kalax::features::common::{FeatureFunction, FeatureFunctionReturn};
use kalax::group::{apply_features_to_series, process_single_group, qualify_features};
use kalax::order::{sort_rows, Keys};
use kalax::pipeline::process_groups;
use kalax::table::{Column, ColumnData, Table};

/// Reports the mean and the number of observations.
struct MeanAndLength;

impl FeatureFunction<f64> for MeanAndLength {
    fn apply(&self, series: &[f64]) -> Vec<FeatureFunctionReturn<f64>> {
        vec![
            FeatureFunctionReturn {
                name: "mean".to_string(),
                value: series.iter().sum::<f64>() / series.len() as f64,
            },
            FeatureFunctionReturn { name: "length".to_string(), value: series.len() as f64 },
        ]
    }
}

/// Reports every observation under its position, so that the order of a
/// series shows in the results.
struct Echo;

impl FeatureFunction<f64> for Echo {
    fn apply(&self, series: &[f64]) -> Vec<FeatureFunctionReturn<f64>> {
        series
            .iter()
            .enumerate()
            .map(|(i, value)| FeatureFunctionReturn { name: format!("at{}", i), value: *value })
            .collect()
    }
}

fn labels(name: &str, values: &[&str]) -> Column<f64> {
    Column::new(name, ColumnData::Text(values.iter().map(|v| v.to_string()).collect()))
}

fn ints(name: &str, values: &[i64]) -> Column<f64> {
    Column::new(name, ColumnData::Int(values.to_vec()))
}

fn nums(name: &str, values: &[f64]) -> Column<f64> {
    Column::new(name, ColumnData::numbers(values.to_vec()))
}

fn table(columns: Vec<Column<f64>>) -> Table<f64> {
    Table::new(columns).unwrap()
}

fn named(entries: &[(&str, f64)]) -> Vec<(String, f64)> {
    entries.iter().map(|(name, value)| (name.to_string(), *value)).collect()
}

#[test]
fn features_are_qualified_by_the_column_name() {
    let results = apply_features_to_series(&[1.0, 2.0, 3.0], "close", &MeanAndLength);
    assert_eq!(results, named(&[("close__mean", 2.0), ("close__length", 3.0)]));
}

#[test]
fn qualifying_keeps_order_and_values() {
    let features = vec![
        FeatureFunctionReturn { name: "b".to_string(), value: 1.0 },
        FeatureFunctionReturn { name: "".to_string(), value: 2.0 },
        FeatureFunctionReturn { name: "a__b".to_string(), value: 3.0 },
    ];
    assert_eq!(
        qualify_features("col", &features),
        named(&[("col__b", 1.0), ("col__", 2.0), ("col__a__b", 3.0)])
    );
    assert_eq!(qualify_features("", &features)[0].0, "__b");
}

#[test]
fn a_group_is_sorted_before_its_series_are_taken() {
    let group = table(vec![
        ints("t", &[3, 1, 2]),
        nums("x", &[30.0, 10.0, 20.0]),
        nums("y", &[3.0, 1.0, 2.0]),
    ]);
    let columns = vec!["y".to_string(), "x".to_string()];
    let (id, features) = process_single_group(&group, "g", "t", &columns, &Echo).unwrap();
    assert_eq!(id, "g");
    assert_eq!(
        features,
        named(&[
            ("y__at0", 1.0),
            ("y__at1", 2.0),
            ("y__at2", 3.0),
            ("x__at0", 10.0),
            ("x__at1", 20.0),
            ("x__at2", 30.0),
        ])
    );
}

#[test]
fn rows_of_equal_key_keep_their_order() {
    let group = table(vec![
        ints("t", &[2, 1, 2, 1, 2, 0]),
        nums("x", &[1.0, 2.0, 3.0, 4.0, 5.0, 6.0]),
    ]);
    let columns = vec!["x".to_string()];
    let (_, features) = process_single_group(&group, "g", "t", &columns, &Echo).unwrap();
    let values: Vec<f64> = features.iter().map(|(_, value)| *value).collect();
    assert_eq!(values, vec![6.0, 2.0, 4.0, 1.0, 3.0, 5.0]);
}

#[test]
fn sorting_rows_by_integers_and_by_text() {
    let keys = vec![5, -1, 5, 0, i64::MIN, i64::MAX, -1];
    assert_eq!(sort_rows(&Keys::Int(&keys)), vec![4, 1, 6, 3, 0, 2, 5]);
    let keys: Vec<String> = ["b", "a", "", "ab", "a", "B"].iter().map(|s| s.to_string()).collect();
    assert_eq!(sort_rows(&Keys::Text(&keys)), vec![2, 5, 1, 4, 3, 0]);
    let keys: Vec<i64> = vec![];
    assert_eq!(sort_rows(&Keys::Int(&keys)), Vec::<usize>::new());
    let keys = vec![7];
    assert_eq!(sort_rows(&Keys::Int(&keys)), vec![0]);
}

#[test]
fn sorting_agrees_with_a_stable_sort() {
    // a fixed pseudo-random sequence with many ties
    let mut state: u64 = 12345;
    let mut keys: Vec<i64> = Vec::new();
    for _ in 0..1000 {
        state = state.wrapping_mul(6364136223846793005).wrapping_add(1442695040888963407);
        keys.push(((state >> 33) % 50) as i64 - 25);
    }
    let mut expected: Vec<usize> = (0..keys.len()).collect();
    expected.sort_by_key(|&row| keys[row]);
    assert_eq!(sort_rows(&Keys::Int(&keys)), expected);

    let texts: Vec<String> = keys.iter().map(|k| format!("k{}", k)).collect();
    let mut expected: Vec<usize> = (0..texts.len()).collect();
    expected.sort_by(|&a, &b| texts[a].cmp(&texts[b]));
    assert_eq!(sort_rows(&Keys::Text(&texts)), expected);

    let descending: Vec<i64> = (0..257).rev().collect();
    let expected: Vec<usize> = (0..257).rev().collect();
    assert_eq!(sort_rows(&Keys::Int(&descending)), expected);
}

#[test]
fn only_integers_and_text_are_keys() {
    let whole: ColumnData<f64> = ColumnData::Int(vec![2, 1]);
    assert!(matches!(whole.keys(), Some(Keys::Int(_))));
    let text: ColumnData<f64> = ColumnData::Text(vec!["a".to_string()]);
    assert!(matches!(text.keys(), Some(Keys::Text(_))));
    let observations: ColumnData<f64> = ColumnData::numbers(vec![2.0, 1.0]);
    assert!(observations.keys().is_none());
}

#[test]
fn missing_observations_are_dropped_not_replaced() {
    let group = table(vec![
        ints("t", &[4, 3, 2, 1]),
        Column::new("x", ColumnData::Num(vec![Some(4.0), None, Some(2.0), None])),
    ]);
    let columns = vec!["x".to_string()];
    let (_, features) = process_single_group(&group, "g", "t", &columns, &Echo).unwrap();
    assert_eq!(features, named(&[("x__at0", 2.0), ("x__at1", 4.0)]));
}

#[test]
fn a_group_without_its_sort_column_fails() {
    let group = table(vec![nums("x", &[1.0])]);
    let columns = vec!["x".to_string()];
    assert_eq!(
        process_single_group(&group, "g", "t", &columns, &Echo),
        Err(GroupProcessingError::MissingSortColumn("t".to_string()))
    );
}

#[test]
fn a_sort_column_of_observations_fails() {
    let group = table(vec![nums("t", &[1.0]), nums("x", &[1.0])]);
    let columns = vec!["x".to_string()];
    assert_eq!(
        process_single_group(&group, "g", "t", &columns, &Echo),
        Err(GroupProcessingError::UnorderedSortColumn("t".to_string()))
    );
}

#[test]
fn an_absent_feature_column_fails() {
    let group = table(vec![ints("t", &[1]), nums("x", &[1.0])]);
    let columns = vec!["x".to_string(), "y".to_string()];
    assert_eq!(
        process_single_group(&group, "g", "t", &columns, &Echo),
        Err(GroupProcessingError::MissingFeatureColumn("y".to_string()))
    );
}

#[test]
fn a_feature_column_that_is_not_numeric_fails() {
    let group = table(vec![ints("t", &[1]), labels("note", &["n"]), ints("count", &[3])]);
    assert_eq!(
        process_single_group(&group, "g", "t", &["note".to_string()], &Echo),
        Err(GroupProcessingError::NonNumericFeatureColumn("note".to_string()))
    );
    assert_eq!(
        process_single_group(&group, "g", "t", &["count".to_string()], &Echo),
        Err(GroupProcessingError::NonNumericFeatureColumn("count".to_string()))
    );
}

#[test]
fn the_first_fault_is_the_one_reported() {
    let group = table(vec![ints("t", &[1]), labels("note", &["n"])]);
    let columns = vec!["gone".to_string(), "note".to_string()];
    assert_eq!(
        process_single_group(&group, "g", "t", &columns, &Echo),
        Err(GroupProcessingError::MissingFeatureColumn("gone".to_string()))
    );
    assert_eq!(
        process_single_group(&group, "g", "when", &columns, &Echo),
        Err(GroupProcessingError::MissingSortColumn("when".to_string()))
    );
}

#[test]
fn a_group_without_feature_columns_has_no_features() {
    let group = table(vec![ints("t", &[1])]);
    assert_eq!(process_single_group(&group, "g", "t", &[], &Echo), Ok(("g".to_string(), vec![])));
}

#[test]
fn a_failing_group_does_not_stop_the_others() {
    let partitions = vec![
        ("A".to_string(), table(vec![ints("t", &[2, 1]), nums("x", &[2.0, 1.0])])),
        ("B".to_string(), table(vec![ints("t", &[1]), labels("x", &["oops"])])),
        ("C".to_string(), table(vec![ints("t", &[1]), nums("x", &[7.0])])),
        ("D".to_string(), table(vec![nums("x", &[7.0])])),
    ];
    let columns = vec!["x".to_string()];
    let (results, skipped) = process_groups(&partitions, "t", &columns, &Echo);
    assert_eq!(
        results,
        vec![
            ("A".to_string(), named(&[("x__at0", 1.0), ("x__at1", 2.0)])),
            ("C".to_string(), named(&[("x__at0", 7.0)])),
        ]
    );
    assert_eq!(
        skipped,
        vec![
            ("B".to_string(), GroupProcessingError::NonNumericFeatureColumn("x".to_string())),
            ("D".to_string(), GroupProcessingError::MissingSortColumn("t".to_string())),
        ]
    );
}
