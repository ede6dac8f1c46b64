//! The flat extraction: records that are already grouped, each a list of
//! named series, with no partitioning and no sorting.

use vstd::prelude::*;
use crate::features::common::{
    FeatureFunction, FeatureFunctionReturn, Grouped, groups, named_values, pairs, yields,
};

verus! {

/// The content of a record: each column name with its series.
pub open spec fn record<V>(columns: Seq<(String, Vec<V>)>) -> Seq<(Seq<char>, Seq<V>)> {
    columns.map_values(|c: (String, Vec<V>)| (c.0@, c.1@))
}

/// `out` is what the capability yields for a record: for every column, in
/// order and under the column's name, a result that the capability can return
/// for the column's series, with the feature names unqualified.
pub open spec fn record_outcome<V, F: FeatureFunction<V>>(
    catalog: F,
    columns: Seq<(Seq<char>, Seq<V>)>,
    out: Grouped<V>,
) -> bool {
    &&& out.len() == columns.len()
    &&& forall|k: int|
        0 <= k < columns.len() ==> (#[trigger] out[k]).0 == columns[k].0 && yields(
            catalog,
            columns[k].1,
            out[k].1,
        )
}

/// The results of a capability as pairs of name and value, in order.
pub fn named_pairs<V: Copy>(features: &Vec<FeatureFunctionReturn<V>>) -> (out: Vec<(String, V)>)
    ensures
        pairs(out@) == named_values(features@),
{
    let mut out: Vec<(String, V)> = Vec::new();
    let mut i: usize = 0;
    while i < features.len()
        invariant
            i <= features@.len(),
            pairs(out@) == named_values(features@).take(i as int),
        decreases features@.len() - i,
    {
        let ghost before = out@;
        let entry = (features[i].name.clone(), features[i].value);
        out.push(entry);
        assert(pairs(out@) =~= pairs(before).push((entry.0@, entry.1)));
        assert(pairs(out@) =~= named_values(features@).take(i + 1));
        i += 1;
    }
    assert(named_values(features@).take(i as int) =~= named_values(features@));
    out
}

/// Runs the capability on one series and hands back its results as pairs of
/// feature name and value.
pub fn extract_series<V: Copy, F: FeatureFunction<V>>(series: &[V], catalog: &F) -> (out: Vec<
    (String, V),
>)
    ensures
        yields(*catalog, series@, pairs(out@)),
{
    let features = catalog.apply(series);
    assert(call_ensures(F::apply, (catalog, series), features));
    named_pairs(&features)
}

/// Runs the capability on every column of one record.
pub fn extract_record<V: Copy, F: FeatureFunction<V>>(
    columns: &Vec<(String, Vec<V>)>,
    catalog: &F,
) -> (out: Vec<(String, Vec<(String, V)>)>)
    ensures
        record_outcome(*catalog, record(columns@), groups(out@)),
{
    let ghost all = record(columns@);
    let mut out: Vec<(String, Vec<(String, V)>)> = Vec::new();
    let mut k: usize = 0;
    while k < columns.len()
        invariant
            k <= columns@.len(),
            all == record(columns@),
            record_outcome(*catalog, all.take(k as int), groups(out@)),
        decreases columns@.len() - k,
    {
        let ghost before = out@;
        let name = &columns[k].0;
        let series = &columns[k].1;
        assert(all[k as int] == (name@, series@));
        let entry = (name.clone(), extract_series(series.as_slice(), catalog));
        out.push(entry);
        assert(groups(out@) =~= groups(before).push((entry.0@, pairs(entry.1@))));
        assert forall|j: int| 0 <= j < k + 1 implies (#[trigger] groups(out@)[j]).0 == all.take(
            k + 1,
        )[j].0 && yields(*catalog, all.take(k + 1)[j].1, groups(out@)[j].1) by {
            if j < k {
                assert(groups(out@)[j] == groups(before)[j]);
                assert(all.take(k + 1)[j] == all.take(k as int)[j]);
            }
        }
        k += 1;
    }
    assert(all.take(k as int) =~= all);
    out
}

/// Extracts the features of every column of every record.
///
/// The answer has one entry per record, in the order of the records; each
/// lists the columns of its record in order, and for each column the results
/// of the capability on that column's series under their unqualified names.
/// The series are taken as they stand: ordering them is up to the caller.
pub fn extract_features<V: Copy, F: FeatureFunction<V>>(
    data: &[Vec<(String, Vec<V>)>],
    catalog: &F,
) -> (out: Vec<Vec<(String, Vec<(String, V)>)>>)
    ensures
        out@.len() == data@.len(),
        forall|i: int|
            0 <= i < data@.len() ==> record_outcome(
                *catalog,
                record(data@[i]@),
                groups((#[trigger] out@[i])@),
            ),
{
    let mut out: Vec<Vec<(String, Vec<(String, V)>)>> = Vec::new();
    let mut i: usize = 0;
    while i < data.len()
        invariant
            i <= data@.len(),
            out@.len() == i,
            forall|j: int|
                0 <= j < i ==> record_outcome(
                    *catalog,
                    record(data@[j]@),
                    groups((#[trigger] out@[j])@),
                ),
        decreases data@.len() - i,
    {
        let entry = extract_record(&data[i], catalog);
        out.push(entry);
        i += 1;
    }
    out
}

} // verus!
