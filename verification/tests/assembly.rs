use kalax::assemble::assemble_result_dataframe;
use kalax::error::AssemblyError;
use kalax::table::{Column, ColumnData, Table};

fn named(entries: &[(&str, f64)]) -> Vec<(String, f64)> {
    entries.iter().map(|(name, value)| (name.to_string(), *value)).collect()
}

fn two_groups() -> Vec<(String, Vec<(String, f64)>)> {
    vec![
        ("A".to_string(), named(&[("value1__mean", 2.0), ("value1__length", 3.0)])),
        ("B".to_string(), named(&[("value1__mean", 4.0), ("value1__length", 2.0)])),
    ]
}

fn values(table: &Table<f64>, column: &str) -> Vec<f64> {
    table.column(column).unwrap().data.numeric_values().unwrap()
}

#[test]
fn dataframe_utils_test_assemble_result_dataframe() {
    let group_results = two_groups();

    let result = assemble_result_dataframe(group_results, "id", 0.0);
    assert!(result.is_ok());

    let df = result.unwrap();
    assert_eq!(df.width(), 3); // id + 2 feature columns
    assert_eq!(df.height(), 2); // 2 groups

    let columns = df.get_column_names();
    assert!(columns.contains(&"id".to_string()));
    assert!(columns.contains(&"value1__mean".to_string()));
    assert!(columns.contains(&"value1__length".to_string()));
}

#[test]
fn dataframe_utils_test_assemble_result_dataframe_empty() {
    let group_results: Vec<(String, Vec<(String, f64)>)> = vec![];
    let result = assemble_result_dataframe(group_results, "id", 0.0);
    assert!(result.is_err());
}

#[test]
fn polars_test_assemble_result_dataframe() {
    let group_results = two_groups();

    let result = assemble_result_dataframe(group_results, "id", f64::NAN);
    assert!(result.is_ok());

    let df = result.unwrap();
    assert_eq!(df.width(), 3); // id + 2 feature columns
    assert_eq!(df.height(), 2); // 2 groups

    let columns = df.get_column_names();
    for target in ["id", "value1__mean", "value1__length"] {
        assert!(columns.contains(&target.to_string()));
    }
}

#[test]
fn polars_test_assemble_result_dataframe_empty() {
    let group_results: Vec<(String, Vec<(String, f64)>)> = vec![];
    let result = assemble_result_dataframe(group_results, "id", f64::NAN);
    assert!(result.is_err());
}

#[test]
fn assembly_of_no_results_is_an_assembly_error() {
    let none: Vec<(String, Vec<(String, f64)>)> = vec![];
    assert_eq!(assemble_result_dataframe(none, "id", 0.0), Err(AssemblyError::NoGroupResults));
}

#[test]
fn assembled_table_is_exactly_the_sorted_union() {
    let table = assemble_result_dataframe(two_groups(), "id", 0.0).unwrap();
    let expected = Table::new(vec![
        Column::new("id", ColumnData::Text(vec!["A".to_string(), "B".to_string()])),
        Column::new("value1__length", ColumnData::numbers(vec![3.0, 2.0])),
        Column::new("value1__mean", ColumnData::numbers(vec![2.0, 4.0])),
    ])
    .unwrap();
    assert_eq!(table, expected);
}

#[test]
fn columns_are_the_sorted_union_of_the_names_of_all_groups() {
    let results = vec![
        ("g1".to_string(), named(&[("b__mean", 1.0), ("a__sum", 2.0)])),
        ("g2".to_string(), named(&[("c__max", 3.0), ("a__sum", 4.0), ("B__min", 5.0)])),
        ("g3".to_string(), named(&[])),
    ];
    let table = assemble_result_dataframe(results, "key", -1.0).unwrap();
    assert_eq!(table.get_column_names(), vec!["key", "B__min", "a__sum", "b__mean", "c__max"]);
    assert_eq!(table.height(), 3);
    assert_eq!(
        table.column("key").unwrap().data,
        ColumnData::Text(vec!["g1".to_string(), "g2".to_string(), "g3".to_string()])
    );
    assert_eq!(values(&table, "B__min"), vec![-1.0, 5.0, -1.0]);
    assert_eq!(values(&table, "a__sum"), vec![2.0, 4.0, -1.0]);
    assert_eq!(values(&table, "b__mean"), vec![1.0, -1.0, -1.0]);
    assert_eq!(values(&table, "c__max"), vec![-1.0, 3.0, -1.0]);
}

#[test]
fn a_missing_feature_gets_the_fill_value_zero() {
    let results = vec![
        ("A".to_string(), named(&[("x__mean", 1.0)])),
        ("B".to_string(), named(&[("y__mean", 2.0)])),
    ];
    let table = assemble_result_dataframe(results, "id", 0.0).unwrap();
    assert_eq!(values(&table, "x__mean"), vec![1.0, 0.0]);
    assert_eq!(values(&table, "y__mean"), vec![0.0, 2.0]);
}

#[test]
fn a_missing_feature_gets_the_fill_value_not_a_number() {
    let results = vec![
        ("A".to_string(), named(&[("x__mean", 1.0)])),
        ("B".to_string(), named(&[("y__mean", 2.0)])),
    ];
    let table = assemble_result_dataframe(results, "id", f64::NAN).unwrap();
    let x = values(&table, "x__mean");
    assert_eq!(x.len(), 2);
    assert_eq!(x[0], 1.0);
    assert!(x[1].is_nan());
    let y = values(&table, "y__mean");
    assert_eq!(y.len(), 2);
    assert!(y[0].is_nan());
    assert_eq!(y[1], 2.0);
}

#[test]
fn the_first_of_two_results_of_one_name_is_taken() {
    let results = vec![("A".to_string(), named(&[("x", 1.0), ("y", 2.0), ("x", 3.0)]))];
    let table = assemble_result_dataframe(results, "id", 0.0).unwrap();
    assert_eq!(table.get_column_names(), vec!["id", "x", "y"]);
    assert_eq!(values(&table, "x"), vec![1.0]);
}

#[test]
fn groups_without_any_result_give_the_id_column_alone() {
    let results = vec![("A".to_string(), named(&[])), ("B".to_string(), named(&[]))];
    let table = assemble_result_dataframe(results, "id", 0.0).unwrap();
    assert_eq!(table.width(), 1);
    assert_eq!(table.height(), 2);
}

#[test]
fn rows_keep_the_order_of_the_results() {
    let results = vec![
        ("z".to_string(), named(&[("v", 1.0)])),
        ("a".to_string(), named(&[("v", 2.0)])),
        ("m".to_string(), named(&[("v", 3.0)])),
    ];
    let table = assemble_result_dataframe(results, "id", 0.0).unwrap();
    assert_eq!(
        table.column("id").unwrap().data,
        ColumnData::Text(vec!["z".to_string(), "a".to_string(), "m".to_string()])
    );
    assert_eq!(values(&table, "v"), vec![1.0, 2.0, 3.0]);
}

#[test]
fn many_groups_with_differing_features() {
    let mut results: Vec<(String, Vec<(String, f64)>)> = Vec::new();
    for g in 0..200usize {
        let mut features: Vec<(String, f64)> = Vec::new();
        for f in (0..60usize).rev() {
            if (g + f) % 3 != 0 {
                features.push((format!("col{:02}__mean", f), (g * 100 + f) as f64));
            }
        }
        // a second result of a name that is already there must not count
        features.push((format!("col{:02}__mean", (g + 1) % 60), -5.0));
        results.push((format!("g{}", g), features));
    }
    let expected = results.clone();
    let table = assemble_result_dataframe(results, "id", -1.0).unwrap();
    assert_eq!(table.width(), 61);
    assert_eq!(table.height(), 200);
    let names = table.get_column_names();
    for f in 0..60usize {
        assert_eq!(names[f + 1], format!("col{:02}__mean", f));
        let column = values(&table, &names[f + 1]);
        for g in 0..200usize {
            let wanted = expected[g]
                .1
                .iter()
                .find(|(name, _)| name == &names[f + 1])
                .map(|(_, value)| *value)
                .unwrap_or(-1.0);
            assert_eq!(column[g], wanted);
        }
    }
}
