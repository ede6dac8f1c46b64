//! The schema validator: the one check that runs before any partitioning.

use vstd::prelude::*;
use crate::error::{SchemaError, SchemaFault};
use crate::table::{Table, columns_view, names_of};
use crate::text::{same_text, texts};

verus! {

/// The names that are neither the id column's nor the sort column's.
pub open spec fn is_feature(column_id: Seq<char>, column_sort: Seq<char>) -> spec_fn(
    Seq<char>,
) -> bool {
    |name: Seq<char>| name != column_id && name != column_sort
}

/// The feature columns of a request: every column name that is neither the id
/// column's nor the sort column's, in the order of the table.
pub open spec fn feature_columns(
    names: Seq<Seq<char>>,
    column_id: Seq<char>,
    column_sort: Seq<char>,
) -> Seq<Seq<char>> {
    names.filter(is_feature(column_id, column_sort))
}

/// What validation answers for a table with the given column names: the
/// feature columns, or the first fault found. The id column is looked for
/// first, then the sort column, then a feature column.
pub open spec fn validated(
    names: Seq<Seq<char>>,
    column_id: Seq<char>,
    column_sort: Seq<char>,
) -> Result<Seq<Seq<char>>, SchemaFault> {
    if !names.contains(column_id) {
        Err(SchemaFault::MissingColumn(column_id))
    } else if !names.contains(column_sort) {
        Err(SchemaFault::MissingColumn(column_sort))
    } else if feature_columns(names, column_id, column_sort).len() == 0 {
        Err(SchemaFault::NoFeatureColumns)
    } else {
        Ok(feature_columns(names, column_id, column_sort))
    }
}

/// The feature columns are the column names other than the two set aside.
pub proof fn lemma_feature_columns(
    names: Seq<Seq<char>>,
    column_id: Seq<char>,
    column_sort: Seq<char>,
)
    ensures
        forall|name: Seq<char>|
            feature_columns(names, column_id, column_sort).contains(name) <==> (names.contains(
                name,
            ) && name != column_id && name != column_sort),
{
    let keep = is_feature(column_id, column_sort);
    let features = feature_columns(names, column_id, column_sort);
    assert forall|name: Seq<char>|
        features.contains(name) <==> (names.contains(name) && name != column_id && name
            != column_sort) by {
        if features.contains(name) {
            let k = choose|k: int| 0 <= k < features.len() && features[k] == name;
            names.lemma_filter_pred(keep, k);
            names.lemma_filter_contains_rev(keep, name);
        }
        if names.contains(name) && keep(name) {
            let i = choose|i: int| 0 <= i < names.len() && names[i] == name;
            names.lemma_filter_contains(keep, i);
        }
    }
}

/// When validation fails: where no column bears the id column's name, and
/// where every column is the id column or the sort column, so that none is
/// left as a feature column. Where it succeeds, both columns exist and there
/// is at least one feature column.
pub proof fn lemma_validation_fails(
    names: Seq<Seq<char>>,
    column_id: Seq<char>,
    column_sort: Seq<char>,
)
    ensures
        !names.contains(column_id) ==> validated(names, column_id, column_sort) == Err::<
            Seq<Seq<char>>,
            SchemaFault,
        >(SchemaFault::MissingColumn(column_id)),
        (forall|i: int|
            0 <= i < names.len() ==> #[trigger] names[i] == column_id || names[i] == column_sort)
            ==> validated(names, column_id, column_sort) is Err,
        validated(names, column_id, column_sort) is Ok ==> names.contains(column_id)
            && names.contains(column_sort) && feature_columns(
            names,
            column_id,
            column_sort,
        ).len() > 0,
{
    let features = feature_columns(names, column_id, column_sort);
    lemma_feature_columns(names, column_id, column_sort);
    if features.len() > 0 {
        assert(features.contains(features[0]));
        assert(names.contains(features[0]));
        let i = choose|i: int| 0 <= i < names.len() && names[i] == features[0];
        assert(names[i] != column_id && names[i] != column_sort);
    }
}

/// Confirms that the id and sort columns exist and names the feature columns.
pub fn validate_dataframe<V: Copy>(df: &Table<V>, column_id: &str, column_sort: &str) -> (answer:
    Result<Vec<String>, SchemaError>)
    ensures
        match validated(names_of(df@), column_id@, column_sort@) {
            Ok(features) => answer matches Ok(found) && texts(found@) == features,
            Err(fault) => answer matches Err(e) && e@ == fault,
        },
{
    if !df.has_column(column_id) {
        return Err(SchemaError::MissingColumn(column_id.to_owned()));
    }
    if !df.has_column(column_sort) {
        return Err(SchemaError::MissingColumn(column_sort.to_owned()));
    }
    let columns = df.columns();
    let ghost names = names_of(df@);
    let ghost keep = is_feature(column_id@, column_sort@);
    let mut features: Vec<String> = Vec::new();
    let mut i: usize = 0;
    proof {
        reveal(Seq::filter);
    }
    while i < columns.len()
        invariant
            i <= columns@.len(),
            columns_view(columns@) == df@,
            names == names_of(df@),
            keep == is_feature(column_id@, column_sort@),
            texts(features@) == names.take(i as int).filter(keep),
        decreases columns@.len() - i,
    {
        let name = &columns[i].name;
        assert(name@ == names[i as int]);
        assert(names.take(i + 1).drop_last() =~= names.take(i as int));
        proof {
            reveal(Seq::filter);
        }
        if !same_text(name.as_str(), column_id) && !same_text(name.as_str(), column_sort) {
            let ghost before = features@;
            let kept = name.clone();
            features.push(kept);
            assert(texts(features@) =~= texts(before).push(kept@));
        }
        i += 1;
    }
    assert(names.take(i as int) =~= names);
    if features.len() == 0 {
        return Err(SchemaError::NoFeatureColumns);
    }
    Ok(features)
}

/// Validates as [`validate_dataframe`] does and hands back, with the feature
/// columns, a copy of the validated table.
pub fn validate_and_prepare_dataframe<V: Copy>(
    df: &Table<V>,
    column_id: &str,
    column_sort: &str,
) -> (answer: Result<(Table<V>, Vec<String>), SchemaError>)
    ensures
        match validated(names_of(df@), column_id@, column_sort@) {
            Ok(features) => answer matches Ok((table, found)) && table@ == df@ && texts(found@)
                == features,
            Err(fault) => answer matches Err(e) && e@ == fault,
        },
{
    match validate_dataframe(df, column_id, column_sort) {
        Ok(features) => Ok((df.duplicate(), features)),
        Err(e) => Err(e),
    }
}

} // verus!
