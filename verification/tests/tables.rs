use kalax::error::{
    AssemblyError, ExtractionError, GroupProcessingError, SchemaError,
};
use kalax::names::{find_name, insert_name};
use kalax::table::{Column, ColumnData, Table};
use kalax::text::{decimal_text, qualified_name, same_text, text_before};

fn labels(name: &str, values: &[&str]) -> Column<f64> {
    Column::new(name, ColumnData::Text(values.iter().map(|v| v.to_string()).collect()))
}

fn ints(name: &str, values: &[i64]) -> Column<f64> {
    Column::new(name, ColumnData::Int(values.to_vec()))
}

fn nums(name: &str, values: &[f64]) -> Column<f64> {
    Column::new(name, ColumnData::numbers(values.to_vec()))
}

#[test]
fn a_table_needs_columns_of_equal_length() {
    assert!(Table::new(vec![ints("a", &[1, 2]), nums("b", &[1.0])]).is_none());
    assert!(Table::new(vec![ints("a", &[]), nums("b", &[1.0])]).is_none());
    assert!(Table::new(vec![ints("a", &[1]), nums("b", &[1.0]), labels("c", &[])]).is_none());
    assert!(Table::new(vec![ints("a", &[1, 2]), nums("b", &[1.0, 2.0])]).is_some());
    assert!(Table::<f64>::new(vec![]).is_some());
}

#[test]
fn width_height_and_names() {
    let table = Table::new(vec![ints("a", &[1, 2, 3]), nums("b", &[1.0, 2.0, 3.0])]).unwrap();
    assert_eq!(table.width(), 2);
    assert_eq!(table.height(), 3);
    assert_eq!(table.get_column_names(), vec!["a", "b"]);
    assert_eq!(table.columns().len(), 2);
    let empty = Table::<f64>::new(vec![]).unwrap();
    assert_eq!(empty.width(), 0);
    assert_eq!(empty.height(), 0);
}

#[test]
fn columns_are_found_by_name() {
    let table = Table::new(vec![ints("a", &[1]), nums("b", &[1.0]), ints("a", &[2])]).unwrap();
    assert!(table.has_column("a"));
    assert!(table.has_column("b"));
    assert!(!table.has_column("c"));
    assert!(!table.has_column("A"));
    // the first column of a name answers for it
    assert_eq!(table.column("a"), Some(&ints("a", &[1])));
    assert_eq!(table.column("b"), Some(&nums("b", &[1.0])));
    assert_eq!(table.column("c"), None);
}

#[test]
fn a_copy_equals_the_table() {
    let table = Table::new(vec![ints("a", &[10, 20]), labels("b", &["x", "y"])]).unwrap();
    assert_eq!(table.duplicate(), table);
}

#[test]
fn leaving_out_columns_by_name() {
    let table = Table::new(vec![ints("a", &[1]), nums("b", &[1.0]), ints("a", &[2])]).unwrap();
    assert_eq!(table.without("a"), Table::new(vec![nums("b", &[1.0])]).unwrap());
    assert_eq!(table.without("c"), table);
    assert_eq!(table.without("a").without("b").width(), 0);
}

#[test]
fn numeric_values_skip_what_is_missing() {
    let data = ColumnData::Num(vec![None, Some(1.0), None, None, Some(2.0)]);
    assert_eq!(data.numeric_values(), Some(vec![1.0, 2.0]));
    assert_eq!(data.len(), 5);
    let none: ColumnData<f64> = ColumnData::Num(vec![None, None]);
    assert_eq!(none.numeric_values(), Some(vec![]));
    let text: ColumnData<f64> = ColumnData::Text(vec!["1.0".to_string()]);
    assert_eq!(text.numeric_values(), None);
    let whole: ColumnData<f64> = ColumnData::Int(vec![1]);
    assert_eq!(whole.numeric_values(), None);
    assert_eq!(ColumnData::numbers(vec![1.0, 2.0]), ColumnData::Num(vec![Some(1.0), Some(2.0)]));
}

#[test]
fn names_sort_as_strings_do() {
    let samples = [
        "", "a", "A", "ab", "abc", "b", "value1__mean", "value1__length", "value10", "value2",
        "_", "__", "\u{e9}", "e", "\u{20AC}", "\u{1F600}", "z", "\u{7f}", "\u{80}", "\u{7ff}",
        "\u{800}", "\u{ffff}", "\u{10000}",
    ];
    for a in samples {
        for b in samples {
            assert_eq!(text_before(a, b), a < b, "{:?} before {:?}", a, b);
            assert_eq!(same_text(a, b), a == b, "{:?} same as {:?}", a, b);
        }
    }
}

#[test]
fn qualified_names_join_with_two_underscores() {
    assert_eq!(qualified_name("value1", "mean"), "value1__mean");
    assert_eq!(qualified_name("", ""), "__");
    assert_eq!(qualified_name("a__b", "c"), "a__b__c");
}

#[test]
fn integers_in_decimal() {
    for n in [0, 1, 9, 10, 11, 99, 100, 101, 12345, -1, -9, -10, -12345, i64::MAX, i64::MIN] {
        assert_eq!(decimal_text(n), n.to_string());
    }
}

#[test]
fn names_are_inserted_in_order_and_once() {
    let mut listing: Vec<String> = Vec::new();
    for name in ["m", "a", "z", "m", "b", "a", "", "zz"] {
        insert_name(&mut listing, name);
    }
    assert_eq!(listing, vec!["", "a", "b", "m", "z", "zz"]);
}

#[test]
fn errors_describe_themselves() {
    assert_eq!(
        SchemaError::MissingColumn("id".to_string()).message(),
        "Column 'id' not found in table"
    );
    assert_eq!(
        SchemaError::NoFeatureColumns.message(),
        "No feature columns found after excluding id and sort columns"
    );
    assert_eq!(
        SchemaError::UnusableIdColumn("id".to_string()).message(),
        "Column 'id' holds observations and cannot serve as id column"
    );
    assert_eq!(
        GroupProcessingError::MissingSortColumn("t".to_string()).message(),
        "Sort column 't' not found"
    );
    assert_eq!(
        GroupProcessingError::UnorderedSortColumn("t".to_string()).message(),
        "Sort column 't' holds observations and cannot be ordered"
    );
    assert_eq!(
        GroupProcessingError::MissingFeatureColumn("x".to_string()).message(),
        "Feature column 'x' not found"
    );
    assert_eq!(
        GroupProcessingError::NonNumericFeatureColumn("x".to_string()).message(),
        "Feature column 'x' does not hold observations"
    );
    assert_eq!(AssemblyError::NoGroupResults.message(), "No group results to assemble");
    assert_eq!(
        ExtractionError::Schema(SchemaError::MissingColumn("id".to_string())).message(),
        "Column 'id' not found in table"
    );
    assert_eq!(
        ExtractionError::Assembly(AssemblyError::NoGroupResults).message(),
        "No group results to assemble"
    );
}

#[test]
fn names_are_found_in_a_listing() {
    let listing: Vec<String> =
        ["", "a", "b", "m", "z", "zz"].iter().map(|name| name.to_string()).collect();
    for (at, name) in listing.iter().enumerate() {
        assert_eq!(find_name(&listing, name), Some(at));
    }
    for name in ["A", "aa", "c", "zzz", "y", "\u{e9}"] {
        assert_eq!(find_name(&listing, name), None);
    }
    assert_eq!(find_name(&Vec::new(), "a"), None);
}
