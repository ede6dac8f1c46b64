use kalax::error::SchemaError;
use kalax::table::{Column, ColumnData, Table};
use kalax::validate::{validate_and_prepare_dataframe, validate_dataframe};

fn ints(name: &str, values: &[i64]) -> Column<f64> {
    Column::new(name, ColumnData::Int(values.to_vec()))
}

fn nums(name: &str, values: &[f64]) -> Column<f64> {
    Column::new(name, ColumnData::numbers(values.to_vec()))
}

fn table(columns: Vec<Column<f64>>) -> Table<f64> {
    Table::new(columns).unwrap()
}

#[test]
fn dataframe_utils_test_validate_and_prepare_dataframe_success() {
    let df = table(vec![
        ints("id", &[1, 2, 3]),
        ints("timestamp", &[1, 2, 3]),
        nums("value1", &[1.0, 2.0, 3.0]),
        nums("value2", &[4.0, 5.0, 6.0]),
    ]);

    let result = validate_and_prepare_dataframe(&df, "id", "timestamp");
    assert!(result.is_ok());

    let (_, feature_columns) = result.unwrap();
    assert_eq!(feature_columns, vec!["value1", "value2"]);
}

#[test]
fn dataframe_utils_test_validate_and_prepare_dataframe_missing_id_column() {
    let df = table(vec![ints("timestamp", &[1, 2, 3]), nums("value1", &[1.0, 2.0, 3.0])]);

    let result = validate_and_prepare_dataframe(&df, "id", "timestamp");
    assert!(result.is_err());
}

#[test]
fn dataframe_utils_test_validate_and_prepare_dataframe_no_feature_columns() {
    let df = table(vec![ints("id", &[1, 2, 3]), ints("timestamp", &[1, 2, 3])]);

    let result = validate_and_prepare_dataframe(&df, "id", "timestamp");
    assert!(result.is_err());
}

#[test]
fn polars_test_validate_and_prepare_dataframe_success() {
    let df = table(vec![
        ints("id", &[1, 2, 3]),
        ints("timestamp", &[1, 2, 3]),
        nums("value1", &[1.0, 2.0, 3.0]),
        nums("value2", &[4.0, 5.0, 6.0]),
    ]);

    let result = validate_dataframe(&df, "id", "timestamp");
    assert!(result.is_ok());

    let feature_columns = result.unwrap();
    assert_eq!(feature_columns, vec!["value1", "value2"]);
}

#[test]
fn polars_test_validate_and_prepare_dataframe_missing_id_column() {
    let df = table(vec![ints("timestamp", &[1, 2, 3]), nums("value1", &[1.0, 2.0, 3.0])]);

    let result = validate_dataframe(&df, "id", "timestamp");
    assert!(result.is_err());
}

#[test]
fn polars_test_validate_and_prepare_dataframe_no_feature_columns() {
    let df = table(vec![ints("id", &[1, 2, 3]), ints("timestamp", &[1, 2, 3])]);

    let result = validate_dataframe(&df, "id", "timestamp");
    assert!(result.is_err());
}

#[test]
fn validation_names_the_missing_id_column() {
    let df = table(vec![ints("timestamp", &[1, 2, 3]), nums("value1", &[1.0, 2.0, 3.0])]);
    assert_eq!(
        validate_dataframe(&df, "id", "timestamp"),
        Err(SchemaError::MissingColumn("id".to_string()))
    );
}

#[test]
fn validation_names_the_missing_sort_column() {
    let df = table(vec![ints("id", &[1, 2, 3]), nums("value1", &[1.0, 2.0, 3.0])]);
    assert_eq!(
        validate_dataframe(&df, "id", "timestamp"),
        Err(SchemaError::MissingColumn("timestamp".to_string()))
    );
}

#[test]
fn validation_looks_for_the_id_column_first() {
    let df = table(vec![nums("value1", &[1.0, 2.0, 3.0])]);
    assert_eq!(
        validate_dataframe(&df, "id", "timestamp"),
        Err(SchemaError::MissingColumn("id".to_string()))
    );
}

#[test]
fn validation_reports_that_no_feature_column_is_left() {
    let df = table(vec![ints("id", &[1, 2]), ints("timestamp", &[1, 2])]);
    assert_eq!(validate_dataframe(&df, "id", "timestamp"), Err(SchemaError::NoFeatureColumns));
}

#[test]
fn validation_with_one_column_as_id_and_sort() {
    let df = table(vec![ints("id", &[1, 2]), nums("value", &[1.0, 2.0])]);
    assert_eq!(validate_dataframe(&df, "id", "id"), Ok(vec!["value".to_string()]));
}

#[test]
fn validation_keeps_the_order_of_the_table() {
    let df = table(vec![
        nums("zeta", &[1.0]),
        ints("t", &[1]),
        nums("alpha", &[2.0]),
        ints("id", &[7]),
        nums("mid", &[3.0]),
    ]);
    assert_eq!(
        validate_dataframe(&df, "id", "t"),
        Ok(vec!["zeta".to_string(), "alpha".to_string(), "mid".to_string()])
    );
}

#[test]
fn validation_hands_back_a_copy_of_the_table() {
    let df = table(vec![
        Column::new("id", ColumnData::Text(vec!["A".to_string(), "B".to_string()])),
        ints("t", &[2, 1]),
        Column::new("value", ColumnData::Num(vec![Some(1.5), None])),
    ]);
    let (copy, features) = validate_and_prepare_dataframe(&df, "id", "t").unwrap();
    assert_eq!(features, vec!["value"]);
    assert_eq!(copy, df);
}

#[test]
fn validation_of_an_empty_table() {
    let df: Table<f64> = table(vec![]);
    assert_eq!(
        validate_dataframe(&df, "id", "t"),
        Err(SchemaError::MissingColumn("id".to_string()))
    );
}
