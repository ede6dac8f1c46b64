//! The grouped extraction: validate, partition, process every group, assemble.

use vstd::prelude::*;
use crate::assemble::{assemble_result_dataframe, assembled};
use crate::error::{
    AssemblyError, ExtractionError, ExtractionFault, GroupFault, GroupProcessingError,
};
use crate::features::common::{FeatureFunction, Grouped, Named, groups, pairs};
use crate::group::{group_fault, group_outcome, process_single_group, sorted_group};
use crate::partition::{Partitions, get_partitioned_dataframes, partitioned, parts};
use crate::table::{Table, names_of};
use crate::text::texts;
use crate::validate::{validate_dataframe, validated};

verus! {

/// The content of a list of groups that were left out, each id with the
/// reason.
pub open spec fn failures(skipped: Seq<(String, GroupProcessingError)>) -> Seq<
    (Seq<char>, GroupFault),
> {
    skipped.map_values(|s: (String, GroupProcessingError)| (s.0@, s.1@))
}

/// The groups that cannot be processed, in the order of the partitions, each
/// with the reason.
pub open spec fn run_faults<V>(
    partitions: Partitions<V>,
    column_sort: Seq<char>,
    columns: Seq<Seq<char>>,
) -> Seq<(Seq<char>, GroupFault)>
    decreases partitions.len(),
{
    if partitions.len() == 0 {
        Seq::empty()
    } else {
        let earlier = run_faults(partitions.drop_last(), column_sort, columns);
        match group_fault(partitions.last().1, column_sort, columns) {
            Some(fault) => earlier.push((partitions.last().0, fault)),
            None => earlier,
        }
    }
}

/// `results` is what processing the partitions yields: one result for each
/// partition that can be processed, in the order of the partitions, under the
/// partition's id; a partition that cannot be processed leaves no trace.
pub open spec fn run_outcome<V, F: FeatureFunction<V>>(
    catalog: F,
    partitions: Partitions<V>,
    column_sort: Seq<char>,
    columns: Seq<Seq<char>>,
    results: Grouped<V>,
) -> bool
    decreases partitions.len(),
{
    if partitions.len() == 0 {
        results.len() == 0
    } else if group_fault(partitions.last().1, column_sort, columns) is Some {
        run_outcome(catalog, partitions.drop_last(), column_sort, columns, results)
    } else {
        &&& results.len() > 0
        &&& results.last().0 == partitions.last().0
        &&& group_outcome(
            catalog,
            sorted_group(partitions.last().1, column_sort),
            columns,
            results.last().1,
        )
        &&& run_outcome(
            catalog,
            partitions.drop_last(),
            column_sort,
            columns,
            results.drop_last(),
        )
    }
}

/// The ids of the partitions that can be processed, in the order of the
/// partitions.
pub open spec fn survivors<V>(
    partitions: Partitions<V>,
    column_sort: Seq<char>,
    columns: Seq<Seq<char>>,
) -> Seq<Seq<char>>
    decreases partitions.len(),
{
    if partitions.len() == 0 {
        Seq::empty()
    } else {
        let earlier = survivors(partitions.drop_last(), column_sort, columns);
        match group_fault(partitions.last().1, column_sort, columns) {
            Some(_) => earlier,
            None => earlier.push(partitions.last().0),
        }
    }
}

/// A run yields one result for every partition that can be processed, and no
/// other: the ids of the results are the ids of those partitions, in the
/// order of the partitions, whatever the capability returns.
pub proof fn lemma_run_outcome<V, F: FeatureFunction<V>>(
    catalog: F,
    partitions: Partitions<V>,
    column_sort: Seq<char>,
    columns: Seq<Seq<char>>,
    results: Grouped<V>,
)
    requires
        run_outcome(catalog, partitions, column_sort, columns, results),
    ensures
        results.map_values(|r: (Seq<char>, Named<V>)| r.0) == survivors(
            partitions,
            column_sort,
            columns,
        ),
        results.len() + run_faults(partitions, column_sort, columns).len() == partitions.len(),
    decreases partitions.len(),
{
    let ids = results.map_values(|r: (Seq<char>, Named<V>)| r.0);
    if partitions.len() == 0 {
        assert(ids =~= survivors(partitions, column_sort, columns));
    } else if group_fault(partitions.last().1, column_sort, columns) is Some {
        lemma_run_outcome(catalog, partitions.drop_last(), column_sort, columns, results);
    } else {
        lemma_run_outcome(
            catalog,
            partitions.drop_last(),
            column_sort,
            columns,
            results.drop_last(),
        );
        let earlier = results.drop_last().map_values(|r: (Seq<char>, Named<V>)| r.0);
        assert(ids =~= earlier.push(results.last().0));
    }
}

/// What the assembler makes of the results of a run: the output table, or
/// the assembly error where no group is left.
pub open spec fn extraction<V>(
    results: Grouped<V>,
    column_id: Seq<char>,
    fill: V,
    answer: Result<Table<V>, ExtractionError>,
) -> bool {
    if results.len() == 0 {
        answer matches Err(e) && e@ == ExtractionFault::Assembly(AssemblyError::NoGroupResults)
    } else {
        answer matches Ok(table) && table@ == assembled(results, column_id, fill)
    }
}

/// Processes every partition on its own. A partition that fails does not
/// stop the others: it is left out of the results and listed, with the
/// reason, among the groups that were skipped.
pub fn process_groups<V: Copy, F: FeatureFunction<V>>(
    partitions: &Vec<(String, Table<V>)>,
    column_sort: &str,
    feature_columns: &[String],
    catalog: &F,
) -> (outcome: (Vec<(String, Vec<(String, V)>)>, Vec<(String, GroupProcessingError)>))
    ensures
        run_outcome(
            *catalog,
            parts(partitions@),
            column_sort@,
            texts(feature_columns@),
            groups(outcome.0@),
        ),
        failures(outcome.1@) == run_faults(
            parts(partitions@),
            column_sort@,
            texts(feature_columns@),
        ),
{
    let ghost all = parts(partitions@);
    let ghost columns = texts(feature_columns@);
    let mut results: Vec<(String, Vec<(String, V)>)> = Vec::new();
    let mut skipped: Vec<(String, GroupProcessingError)> = Vec::new();
    let mut i: usize = 0;
    while i < partitions.len()
        invariant
            i <= partitions@.len(),
            all == parts(partitions@),
            columns == texts(feature_columns@),
            run_outcome(*catalog, all.take(i as int), column_sort@, columns, groups(results@)),
            failures(skipped@) == run_faults(all.take(i as int), column_sort@, columns),
        decreases partitions@.len() - i,
    {
        let id = &partitions[i].0;
        let group = &partitions[i].1;
        assert(all[i as int] == (id@, group@));
        assert(all.take(i + 1).drop_last() =~= all.take(i as int));
        assert(all.take(i + 1).last() == all[i as int]);
        match process_single_group(group, id.as_str(), column_sort, feature_columns, catalog) {
            Ok(result) => {
                let ghost before = results@;
                results.push(result);
                assert(groups(results@) =~= groups(before).push((result.0@, pairs(result.1@))));
                assert(groups(results@).drop_last() =~= groups(before));
            },
            Err(error) => {
                let ghost before = skipped@;
                let entry = (id.clone(), error);
                skipped.push(entry);
                assert(failures(skipped@) =~= failures(before).push((entry.0@, entry.1@)));
            },
        }
        i += 1;
    }
    assert(all.take(i as int) =~= all);
    (results, skipped)
}

/// Extracts the features of every group of a table.
///
/// The table is validated once; a fault there, or an id column that cannot
/// be partitioned by, ends the run. Then the table is partitioned by the id
/// column, every partition is processed on its own, partitions that fail are
/// left out, and the results of the others are assembled into the output
/// table, with `fill` where a group lacks a feature. Where no group is left
/// the run ends with an assembly error.
pub fn extract_features<V: Copy, F: FeatureFunction<V>>(
    df: &Table<V>,
    column_id: &str,
    column_sort: &str,
    catalog: &F,
    fill: V,
) -> (answer: Result<Table<V>, ExtractionError>)
    ensures
        match validated(names_of(df@), column_id@, column_sort@) {
            Err(fault) => answer matches Err(e) && e@ == ExtractionFault::Schema(fault),
            Ok(columns) => match partitioned(df@, column_id@) {
                Err(fault) => answer matches Err(e) && e@ == ExtractionFault::Schema(fault),
                Ok(partitions) => exists|results: Grouped<V>| #[trigger]
                    run_outcome(*catalog, partitions, column_sort@, columns, results)
                        && extraction(results, column_id@, fill, answer),
            },
        },
{
    let feature_columns = match validate_dataframe(df, column_id, column_sort) {
        Ok(feature_columns) => feature_columns,
        Err(e) => {
            return Err(ExtractionError::Schema(e));
        },
    };
    let partitions = match get_partitioned_dataframes(df, column_id) {
        Ok(partitions) => partitions,
        Err(e) => {
            return Err(ExtractionError::Schema(e));
        },
    };
    let (group_results, _) = process_groups(
        &partitions,
        column_sort,
        feature_columns.as_slice(),
        catalog,
    );
    let ghost results = groups(group_results@);
    let answer = match assemble_result_dataframe(group_results, column_id, fill) {
        Ok(table) => Ok(table),
        Err(e) => Err(ExtractionError::Assembly(e)),
    };
    assert(run_outcome(
        *catalog,
        parts(partitions@),
        column_sort@,
        texts(feature_columns@),
        results,
    ) && extraction(results, column_id@, fill, answer));
    answer
}

} // verus!
