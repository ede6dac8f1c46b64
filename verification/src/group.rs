//! The group processor: from one partition to the named features of its
//! columns.

use vstd::prelude::*;
use crate::error::{GroupFault, GroupProcessingError};
use crate::features::common::{
    FeatureFunction, FeatureFunctionReturn, Named, named_values, pairs, yields,
};
use crate::order::{
    keys_of, lemma_stable_order_exists, lemma_stable_order_rows, sort_rows, stable_order,
};
use crate::table::{
    Cells, ColumnView, Table, column_of, lemma_position, position, present,
    row_numbers, take_rows,
};
use crate::text::{qualified, qualified_name, texts};

verus! {

/// The results of a capability on a column, each under its qualified name.
pub open spec fn qualify<V>(column: Seq<char>, raw: Named<V>) -> Named<V> {
    raw.map_values(|r: (Seq<char>, V)| (qualified(column, r.0), r.1))
}

/// The qualified results of several columns, one after the other in the order
/// of the columns.
pub open spec fn qualify_all<V>(columns: Seq<Seq<char>>, raws: Seq<Named<V>>) -> Named<V>
    decreases columns.len(),
{
    if columns.len() == 0 {
        Seq::empty()
    } else {
        qualify_all(columns.drop_last(), raws.drop_last()) + qualify(columns.last(), raws.last())
    }
}

/// What is wrong with the sort column of a group, if anything: it is absent,
/// or it holds observations.
pub open spec fn sort_fault<V>(group: Seq<ColumnView<V>>, column_sort: Seq<char>) -> Option<
    GroupFault,
> {
    match column_of(group, column_sort) {
        None => Some(GroupFault::MissingSortColumn(column_sort)),
        Some(column) => match keys_of(column.cells) {
            None => Some(GroupFault::UnorderedSortColumn(column_sort)),
            Some(_) => None,
        },
    }
}

/// The group with its rows in stable ascending order of the sort column.
pub open spec fn sorted_group<V>(group: Seq<ColumnView<V>>, column_sort: Seq<char>) -> Seq<
    ColumnView<V>,
> {
    match column_of(group, column_sort) {
        Some(column) => match keys_of(column.cells) {
            Some(keys) => take_rows(group, stable_order(keys)),
            None => group,
        },
        None => group,
    }
}

/// What is wrong with a feature column, if anything: it is absent, or it does
/// not hold observations.
pub open spec fn feature_fault<V>(table: Seq<ColumnView<V>>, column: Seq<char>) -> Option<
    GroupFault,
> {
    match column_of(table, column) {
        None => Some(GroupFault::MissingFeatureColumn(column)),
        Some(found) => match found.cells {
            Cells::Num(_) => None,
            _ => Some(GroupFault::NonNumericFeatureColumn(column)),
        },
    }
}

/// The fault of the first feature column that has one.
pub open spec fn first_feature_fault<V>(
    table: Seq<ColumnView<V>>,
    columns: Seq<Seq<char>>,
) -> Option<GroupFault>
    decreases columns.len(),
{
    if columns.len() == 0 {
        None
    } else {
        match first_feature_fault(table, columns.drop_last()) {
            Some(fault) => Some(fault),
            None => feature_fault(table, columns.last()),
        }
    }
}

/// Why a group cannot be processed, if it cannot: the sort column is looked
/// at first, then the feature columns in order.
pub open spec fn group_fault<V>(
    group: Seq<ColumnView<V>>,
    column_sort: Seq<char>,
    columns: Seq<Seq<char>>,
) -> Option<GroupFault> {
    match sort_fault(group, column_sort) {
        Some(fault) => Some(fault),
        None => first_feature_fault(sorted_group(group, column_sort), columns),
    }
}

/// The series of a feature column: its observations in the order of the
/// rows, the missing ones dropped.
pub open spec fn series_of<V>(table: Seq<ColumnView<V>>, column: Seq<char>) -> Seq<V> {
    match column_of(table, column) {
        Some(found) => match found.cells {
            Cells::Num(cells) => present(cells),
            _ => Seq::empty(),
        },
        None => Seq::empty(),
    }
}

/// `raws` holds, for each column, a result that the capability can return for
/// the series of that column.
pub open spec fn reported<V, F: FeatureFunction<V>>(
    catalog: F,
    table: Seq<ColumnView<V>>,
    columns: Seq<Seq<char>>,
    raws: Seq<Named<V>>,
) -> bool {
    &&& raws.len() == columns.len()
    &&& forall|k: int|
        0 <= k < columns.len() ==> yields(catalog, series_of(table, columns[k]), #[trigger] raws[k])
}

/// `out` is what the capability yields for a table whose rows are in order:
/// for the series of each column a result that it can return, qualified by
/// the column's name, column after column.
pub open spec fn group_outcome<V, F: FeatureFunction<V>>(
    catalog: F,
    table: Seq<ColumnView<V>>,
    columns: Seq<Seq<char>>,
    out: Named<V>,
) -> bool {
    exists|raws: Seq<Named<V>>| #[trigger]
        reported(catalog, table, columns, raws) && out == qualify_all(columns, raws)
}

/// Puts the results of a capability under the qualified names of a column.
pub fn qualify_features<V: Copy>(
    column_name: &str,
    features: &Vec<FeatureFunctionReturn<V>>,
) -> (out: Vec<(String, V)>)
    ensures
        pairs(out@) == qualify(column_name@, named_values(features@)),
{
    let ghost raw = named_values(features@);
    let mut out: Vec<(String, V)> = Vec::new();
    let mut i: usize = 0;
    while i < features.len()
        invariant
            i <= features@.len(),
            raw == named_values(features@),
            pairs(out@) == qualify(column_name@, raw.take(i as int)),
        decreases features@.len() - i,
    {
        let ghost before = out@;
        let feature = &features[i];
        let entry = (qualified_name(column_name, feature.name.as_str()), feature.value);
        out.push(entry);
        assert(pairs(out@) =~= pairs(before).push((entry.0@, entry.1)));
        assert(raw[i as int] == (feature.name@, feature.value));
        assert(pairs(out@) =~= qualify(column_name@, raw.take(i + 1)));
        i += 1;
    }
    assert(raw.take(i as int) =~= raw);
    out
}

/// Runs the capability on one series and puts its results under the
/// qualified names of the column the series came from.
pub fn apply_features_to_series<V: Copy, F: FeatureFunction<V>>(
    series: &[V],
    column_name: &str,
    catalog: &F,
) -> (out: Vec<(String, V)>)
    ensures
        exists|raw: Named<V>| #[trigger]
            yields(*catalog, series@, raw) && pairs(out@) == qualify(column_name@, raw),
{
    let features = catalog.apply(series);
    let out = qualify_features(column_name, &features);
    assert(yields(*catalog, series@, named_values(features@))) by {
        assert(call_ensures(F::apply, (catalog, series), features));
    }
    out
}

/// Processes one group.
///
/// The rows are put in ascending order of the sort column, rows of equal key
/// staying in the order in which they stand. Then, for each feature column in the
/// order given, the observations are taken with the missing ones dropped, the
/// capability is run on them, and its results are put under qualified names.
/// The answer is the id with all these results, column after column.
///
/// Fails where the sort column is absent or holds observations, and where a
/// feature column is absent or does not hold observations; the first such
/// fault is reported.
pub fn process_single_group<V: Copy, F: FeatureFunction<V>>(
    group_df: &Table<V>,
    id: &str,
    column_sort: &str,
    feature_columns: &[String],
    catalog: &F,
) -> (answer: Result<(String, Vec<(String, V)>), GroupProcessingError>)
    ensures
        match group_fault(group_df@, column_sort@, texts(feature_columns@)) {
            Some(fault) => answer matches Err(e) && e@ == fault,
            None => answer matches Ok((found_id, features)) && found_id@ == id@ && group_outcome(
                *catalog,
                sorted_group(group_df@, column_sort@),
                texts(feature_columns@),
                pairs(features@),
            ),
        },
{
    let ghost columns = texts(feature_columns@);
    let column = match group_df.column(column_sort) {
        Some(column) => column,
        None => {
            return Err(GroupProcessingError::MissingSortColumn(column_sort.to_owned()));
        },
    };
    let keys = match column.data.keys() {
        Some(keys) => keys,
        None => {
            return Err(GroupProcessingError::UnorderedSortColumn(column_sort.to_owned()));
        },
    };
    let order = sort_rows(&keys);
    let height = group_df.height();
    proof {
        let at = position(group_df@, column_sort@)->0;
        lemma_position(group_df@, column_sort@);
        assert(group_df@[at].cells.len() == group_df@[0].cells.len());
        assert(keys@.len() == column@.cells.len());
        lemma_stable_order_exists(keys@);
        lemma_stable_order_rows(keys@, row_numbers(order@));
    }
    let sorted = group_df.take_rows(&order);
    let ghost table = sorted@;
    assert(table == sorted_group(group_df@, column_sort@));

    let mut all_features: Vec<(String, V)> = Vec::new();
    let ghost mut raws: Seq<Named<V>> = Seq::empty();
    let mut k: usize = 0;
    while k < feature_columns.len()
        invariant
            k <= feature_columns@.len(),
            columns == texts(feature_columns@),
            table == sorted@,
            table == sorted_group(group_df@, column_sort@),
            sort_fault(group_df@, column_sort@) is None,
            first_feature_fault(table, columns.take(k as int)) is None,
            reported(*catalog, table, columns.take(k as int), raws),
            pairs(all_features@) == qualify_all(columns.take(k as int), raws),
        decreases feature_columns@.len() - k,
    {
        let column_name = feature_columns[k].as_str();
        assert(column_name@ == columns[k as int]);
        assert(columns.take(k + 1).drop_last() =~= columns.take(k as int));
        assert(columns.take(k + 1).last() == columns[k as int]);
        let column = match sorted.column(column_name) {
            Some(column) => column,
            None => {
                proof {
                    lemma_fault_found(table, columns, k + 1);
                }
                return Err(GroupProcessingError::MissingFeatureColumn(column_name.to_owned()));
            },
        };
        let series = match column.data.numeric_values() {
            Some(series) => series,
            None => {
                proof {
                    lemma_fault_found(table, columns, k + 1);
                }
                return Err(
                    GroupProcessingError::NonNumericFeatureColumn(column_name.to_owned()),
                );
            },
        };
        assert(series@ == series_of(table, column_name@));
        let mut features = apply_features_to_series(series.as_slice(), column_name, catalog);
        proof {
            let raw = choose|raw: Named<V>| #[trigger]
                yields(*catalog, series@, raw) && pairs(features@) == qualify(column_name@, raw);
            let ghost earlier = raws;
            raws = raws.push(raw);
            assert(raws.drop_last() =~= earlier);
            assert forall|j: int| 0 <= j < k + 1 implies yields(
                *catalog,
                series_of(table, columns.take(k + 1)[j]),
                #[trigger] raws[j],
            ) by {
                if j < k {
                    assert(columns.take(k as int)[j] == columns.take(k + 1)[j]);
                    assert(raws[j] == earlier[j]);
                }
            }
        }
        let ghost before = all_features@;
        let ghost added = features@;
        all_features.append(&mut features);
        assert(pairs(all_features@) =~= pairs(before) + pairs(added));
        k += 1;
    }
    assert(columns.take(k as int) =~= columns);
    Ok((id.to_owned(), all_features))
}

/// A fault among the first `n` feature columns is the fault of the whole
/// list.
proof fn lemma_fault_found<V>(table: Seq<ColumnView<V>>, columns: Seq<Seq<char>>, n: int)
    requires
        0 <= n <= columns.len(),
        first_feature_fault(table, columns.take(n)) is Some,
    ensures
        first_feature_fault(table, columns) == first_feature_fault(table, columns.take(n)),
    decreases columns.len() - n,
{
    if n < columns.len() {
        assert(columns.take(n + 1).drop_last() =~= columns.take(n));
        lemma_fault_found(table, columns, n + 1);
    } else {
        assert(columns.take(n) =~= columns);
    }
}

} // verus!
