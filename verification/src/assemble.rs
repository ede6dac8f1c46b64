//! The assembler: one wide table from the results of the groups.

use vstd::prelude::*;
use crate::error::AssemblyError;
use crate::features::common::{Grouped, Named, groups, pairs};
use crate::names::{
    find_name, increasing, insert_name, lemma_sorted_names, lemma_sorted_names_lists,
    lemma_text_order_strict_total, lists, sorted_names, text_order,
};
use crate::sorted::lemma_sorted_by_distinct;
use crate::table::{
    Cells, Column, ColumnData, ColumnView, Table, columns_view, height_of, names_of, uniform,
};
use crate::text::texts;

verus! {

/// The names that occur in the results of at least one group.
pub open spec fn feature_names<V>(results: Grouped<V>) -> Set<Seq<char>> {
    Set::new(|name: Seq<char>| occurs_before(results, name, results.len() as int))
}

/// `name` occurs in the results of one of the first `g` groups.
pub open spec fn occurs_before<V>(results: Grouped<V>, name: Seq<char>, g: int) -> bool {
    exists|i: int, k: int|
        0 <= i < g && i < results.len() && 0 <= k < results[i].1.len() && (
        #[trigger] results[i].1[k]).0 == name
}

/// The value of the first result that bears `name`, if any does.
pub open spec fn first_of<V>(features: Named<V>, name: Seq<char>) -> Option<V>
    decreases features.len(),
{
    if features.len() == 0 {
        None
    } else {
        match first_of(features.drop_last(), name) {
            Some(value) => Some(value),
            None => if features.last().0 == name {
                Some(features.last().1)
            } else {
                None
            },
        }
    }
}

/// The value a group reports under `name`: that of the first result so
/// named, and `fill` where the group has none.
pub open spec fn lookup<V>(features: Named<V>, name: Seq<char>, fill: V) -> V {
    match first_of(features, name) {
        Some(value) => value,
        None => fill,
    }
}

/// The output column of one feature: a value for every group, in the order
/// of the groups.
pub open spec fn feature_column<V>(results: Grouped<V>, name: Seq<char>, fill: V) -> ColumnView<V> {
    ColumnView {
        name,
        cells: Cells::Num(
            results.map_values(|g: (Seq<char>, Named<V>)| Some(lookup(g.1, name, fill))),
        ),
    }
}

/// The id column of the output: the ids of the groups, in order.
pub open spec fn id_column<V>(results: Grouped<V>, column_id: Seq<char>) -> ColumnView<V> {
    ColumnView {
        name: column_id,
        cells: Cells::Text(results.map_values(|g: (Seq<char>, Named<V>)| g.0)),
    }
}

/// The output table: the id column first, then one column for every name
/// that occurs in any group, in increasing order of the names, with `fill`
/// where a group lacks the name.
pub open spec fn assembled<V>(
    results: Grouped<V>,
    column_id: Seq<char>,
    fill: V,
) -> Seq<ColumnView<V>> {
    seq![id_column(results, column_id)] + sorted_names(feature_names(results)).map_values(
        |name: Seq<char>| feature_column(results, name, fill),
    )
}

/// The names of all results of all groups, group after group.
pub open spec fn all_names<V>(results: Grouped<V>) -> Seq<Seq<char>>
    decreases results.len(),
{
    if results.len() == 0 {
        Seq::empty()
    } else {
        all_names(results.drop_last()) + results.last().1.map_values(|f: (Seq<char>, V)| f.0)
    }
}

/// `all_names` holds the names that occur in some group, and no other.
pub proof fn lemma_all_names<V>(results: Grouped<V>)
    ensures
        all_names(results).to_set() == feature_names(results),
    decreases results.len(),
{
    if results.len() == 0 {
        assert(all_names(results).to_set() =~= feature_names(results));
    } else {
        let front = results.drop_last();
        let last = results.last().1.map_values(|f: (Seq<char>, V)| f.0);
        lemma_all_names(front);
        assert forall|x: Seq<char>| all_names(results).contains(x) <==> occurs_before(
            results,
            x,
            results.len() as int,
        ) by {
            if all_names(results).contains(x) {
                let m = choose|m: int| 0 <= m < all_names(results).len() && all_names(results)[m]
                    == x;
                if m < all_names(front).len() {
                    assert(all_names(front)[m] == x);
                    assert(all_names(front).to_set().contains(x));
                    assert(occurs_before(front, x, front.len() as int));
                    let (i, k) = choose|i: int, k: int|
                        0 <= i < front.len() && i < front.len() && 0 <= k < front[i].1.len() && (
                        #[trigger] front[i].1[k]).0 == x;
                    assert(results[i].1[k].0 == x);
                } else {
                    let k = m - all_names(front).len();
                    assert(last[k] == x);
                    assert(results[results.len() - 1].1[k].0 == x);
                }
            }
            if occurs_before(results, x, results.len() as int) {
                let (i, k) = choose|i: int, k: int|
                    0 <= i < results.len() && i < results.len() && 0 <= k < results[i].1.len() && (
                    #[trigger] results[i].1[k]).0 == x;
                if i < front.len() {
                    assert(front[i].1[k].0 == x);
                    assert(occurs_before(front, x, front.len() as int));
                    assert(all_names(front).to_set().contains(x));
                    let m = choose|m: int| 0 <= m < all_names(front).len() && all_names(front)[m]
                        == x;
                    assert(all_names(results)[m] == x);
                } else {
                    assert(last[k] == x);
                    assert(all_names(results)[all_names(front).len() + k] == x);
                }
            }
        }
        assert(all_names(results).to_set() =~= feature_names(results));
    }
}

/// Which result is the first to bear a name: none where no result bears it,
/// and else the one that no earlier result of the name precedes.
pub proof fn lemma_first_of<V>(features: Named<V>, name: Seq<char>)
    ensures
        (forall|k: int| 0 <= k < features.len() ==> (#[trigger] features[k]).0 != name)
            ==> first_of(features, name) is None,
        forall|k: int|
            0 <= k < features.len() && (#[trigger] features[k]).0 == name && (forall|j: int|
                0 <= j < k ==> (#[trigger] features[j]).0 != name) ==> first_of(features, name)
                == Some(features[k].1),
    decreases features.len(),
{
    if features.len() > 0 {
        let front = features.drop_last();
        lemma_first_of(front, name);
        if forall|k: int| 0 <= k < features.len() ==> (#[trigger] features[k]).0 != name {
            assert forall|k: int| 0 <= k < front.len() implies (#[trigger] front[k]).0 != name by {
                assert(front[k] == features[k]);
            }
        }
        assert forall|k: int|
            0 <= k < features.len() && (#[trigger] features[k]).0 == name && (forall|j: int|
                0 <= j < k ==> (#[trigger] features[j]).0 != name) implies first_of(
            features,
            name,
        ) == Some(features[k].1) by {
            if k < front.len() {
                assert(front[k] == features[k]);
                assert forall|j: int| 0 <= j < k implies (#[trigger] front[j]).0 != name by {
                    assert(front[j] == features[j]);
                }
            } else {
                assert forall|j: int| 0 <= j < front.len() implies (#[trigger] front[j]).0
                    != name by {
                    assert(front[j] == features[j]);
                }
            }
        }
    }
}

/// What a lookup answers: `fill` where no result bears the name, and else
/// the value of the first result that does.
pub proof fn lemma_lookup<V>(features: Named<V>, name: Seq<char>, fill: V)
    ensures
        (forall|k: int| 0 <= k < features.len() ==> (#[trigger] features[k]).0 != name) ==> lookup(
            features,
            name,
            fill,
        ) == fill,
        forall|k: int|
            0 <= k < features.len() && (#[trigger] features[k]).0 == name && (forall|j: int|
                0 <= j < k ==> (#[trigger] features[j]).0 != name) ==> lookup(
                features,
                name,
                fill,
            ) == features[k].1,
{
    lemma_first_of(features, name);
}

/// The column has a cell for every group and none is missing: the cell of a
/// group holds what a lookup of the column's name in the group's results
/// answers.
pub open spec fn complete<V>(column: ColumnView<V>, results: Grouped<V>, fill: V) -> bool {
    match column.cells {
        Cells::Num(cells) => {
            &&& cells.len() == results.len()
            &&& forall|g: int|
                0 <= g < results.len() ==> #[trigger] cells[g] == Some(
                    lookup(results[g].1, column.name, fill),
                )
        },
        _ => false,
    }
}

/// The shape of the output table, whatever the results.
///
/// The id column comes first and holds the ids of the groups in order. The
/// names of the columns after it are exactly the names that occur in some
/// group, in increasing order, so none occurs twice. Every such column is
/// complete: it has one cell per group and none is missing, the cell of a
/// group that lacks the name holding `fill`.
pub proof fn lemma_assembled<V>(results: Grouped<V>, column_id: Seq<char>, fill: V)
    ensures
        ({
            let out = assembled(results, column_id, fill);
            let names = names_of(out).skip(1);
            &&& out.len() == 1 + names.len()
            &&& out[0] == id_column(results, column_id)
            &&& lists(names, feature_names(results))
            &&& uniform(out)
            &&& height_of(out) == results.len()
            &&& forall|j: int| 1 <= j < out.len() ==> complete(#[trigger] out[j], results, fill)
        }),
{
    let out = assembled(results, column_id, fill);
    let names = names_of(out).skip(1);
    let listing = sorted_names(feature_names(results));
    lemma_all_names(results);
    lemma_sorted_names_lists(all_names(results));
    assert(names =~= listing);
    assert forall|j: int| 1 <= j < out.len() implies complete(#[trigger] out[j], results, fill) by {
        assert(out[j] == feature_column(results, listing[j - 1], fill));
    }
    assert forall|i: int| 0 <= i < out.len() implies (#[trigger] out[i]).cells.len()
        == results.len() by {
        if i > 0 {
            assert(complete(out[i], results, fill));
        }
    }
}

/// The row of one group in the output: for every listed name, in order, the
/// value the group reports under it, or `fill`.
fn group_row<V: Copy>(features: &Vec<(String, V)>, names: &Vec<String>, fill: V) -> (row: Vec<V>)
    requires
        increasing(texts(names@)),
    ensures
        row@ == texts(names@).map_values(|name: Seq<char>| lookup(pairs(features@), name, fill)),
{
    let ghost all = pairs(features@);
    let ghost listing = texts(names@);
    let mut found: Vec<Option<V>> = Vec::new();
    let mut j: usize = 0;
    while j < names.len()
        invariant
            j <= names@.len(),
            found@.len() == j,
            forall|i: int| 0 <= i < j ==> #[trigger] found@[i] == None::<V>,
        decreases names@.len() - j,
    {
        found.push(None);
        j += 1;
    }
    proof {
        lemma_text_order_strict_total();
        lemma_sorted_by_distinct(listing, text_order());
    }
    let mut k: usize = 0;
    while k < features.len()
        invariant
            k <= features@.len(),
            all == pairs(features@),
            listing == texts(names@),
            increasing(listing),
            listing.no_duplicates(),
            found@.len() == listing.len(),
            forall|i: int|
                0 <= i < listing.len() ==> #[trigger] found@[i] == first_of(
                    all.take(k as int),
                    listing[i],
                ),
        decreases features@.len() - k,
    {
        let ghost before = found@;
        let name = features[k].0.as_str();
        assert(all[k as int] == (name@, features@[k as int].1));
        assert(all.take(k + 1).drop_last() =~= all.take(k as int));
        assert(all.take(k + 1).last() == all[k as int]);
        match find_name(names, name) {
            Some(at) => {
                if found[at].is_none() {
                    found[at] = Some(features[k].1);
                }
            },
            None => {},
        }
        k += 1;
    }
    assert(all.take(k as int) =~= all);
    let mut row: Vec<V> = Vec::new();
    let mut j: usize = 0;
    while j < names.len()
        invariant
            j <= names@.len(),
            listing == texts(names@),
            found@.len() == listing.len(),
            forall|i: int|
                0 <= i < listing.len() ==> #[trigger] found@[i] == first_of(all, listing[i]),
            row@ == listing.take(j as int).map_values(|name: Seq<char>| lookup(all, name, fill)),
        decreases names@.len() - j,
    {
        let value = match found[j] {
            Some(value) => value,
            None => fill,
        };
        row.push(value);
        assert(row@ =~= listing.take(j + 1).map_values(
            |name: Seq<char>| lookup(all, name, fill),
        ));
        j += 1;
    }
    assert(listing.take(j as int) =~= listing);
    row
}

/// Lists in increasing order the names that occur in any group.
fn collect_names<V: Copy>(group_results: &Vec<(String, Vec<(String, V)>)>) -> (names: Vec<String>)
    ensures
        texts(names@) == sorted_names(feature_names(groups(group_results@))),
        increasing(texts(names@)),
{
    let ghost all = groups(group_results@);
    let mut names: Vec<String> = Vec::new();
    let mut g: usize = 0;
    while g < group_results.len()
        invariant
            g <= group_results@.len(),
            all == groups(group_results@),
            increasing(texts(names@)),
            forall|x: Seq<char>| texts(names@).contains(x) <==> occurs_before(all, x, g as int),
        decreases group_results@.len() - g,
    {
        let features = &group_results[g].1;
        assert(pairs(features@) == all[g as int].1);
        let mut k: usize = 0;
        while k < features.len()
            invariant
                k <= features@.len(),
                g < group_results@.len(),
                all == groups(group_results@),
                pairs(features@) == all[g as int].1,
                increasing(texts(names@)),
                forall|x: Seq<char>|
                    texts(names@).contains(x) <==> (occurs_before(all, x, g as int) || exists|
                        j: int,
                    |
                        0 <= j < k && (#[trigger] all[g as int].1[j]).0 == x),
            decreases features@.len() - k,
        {
            let ghost seen = texts(names@);
            insert_name(&mut names, features[k].0.as_str());
            proof {
                let added = all[g as int].1[k as int].0;
                assert(added == features@[k as int].0@);
                assert forall|x: Seq<char>|
                    texts(names@).contains(x) <==> (occurs_before(all, x, g as int) || exists|
                        j: int,
                    |
                        0 <= j < k + 1 && (#[trigger] all[g as int].1[j]).0 == x) by {
                    if seen.contains(x) && !occurs_before(all, x, g as int) {
                        let j = choose|j: int| 0 <= j < k && (#[trigger] all[g as int].1[j]).0 == x;
                        assert(0 <= j < k + 1 && all[g as int].1[j].0 == x);
                    }
                    if x == added {
                        assert(0 <= k < k + 1 && all[g as int].1[k as int].0 == x);
                    }
                    if exists|j: int| 0 <= j < k + 1 && (#[trigger] all[g as int].1[j]).0 == x {
                        let j = choose|j: int|
                            0 <= j < k + 1 && (#[trigger] all[g as int].1[j]).0 == x;
                        if j < k {
                            assert(seen.contains(x));
                        }
                    }
                }
            }
            k += 1;
        }
        proof {
            assert forall|x: Seq<char>| texts(names@).contains(x) <==> occurs_before(
                all,
                x,
                g + 1,
            ) by {
                if occurs_before(all, x, g as int) {
                    let (i, j) = choose|i: int, j: int|
                        0 <= i < g && i < all.len() && 0 <= j < all[i].1.len() && (
                        #[trigger] all[i].1[j]).0 == x;
                    assert(0 <= i < g + 1 && all[i].1[j].0 == x);
                }
                if exists|j: int| 0 <= j < k && (#[trigger] all[g as int].1[j]).0 == x {
                    let j = choose|j: int| 0 <= j < k && (#[trigger] all[g as int].1[j]).0 == x;
                    assert(0 <= g < g + 1 && all[g as int].1[j].0 == x);
                }
                if occurs_before(all, x, g + 1) {
                    let (i, j) = choose|i: int, j: int|
                        0 <= i < g + 1 && i < all.len() && 0 <= j < all[i].1.len() && (
                        #[trigger] all[i].1[j]).0 == x;
                    if i < g {
                        assert(occurs_before(all, x, g as int));
                    } else {
                        assert(0 <= j < k && all[g as int].1[j].0 == x);
                    }
                }
            }
        }
        g += 1;
    }
    proof {
        assert(lists(texts(names@), feature_names(all)));
        lemma_sorted_names(texts(names@), feature_names(all));
    }
    names
}

/// Assembles the results of the groups into the output table.
///
/// The table has one row per group, in the order given. Its first column
/// bears the name `column_id` and holds the ids; then comes one numeric column
/// for every name that any group reports, in increasing order of the names. A
/// cell holds the value its group reports under the column's name, and `fill`
/// where the group reports none, so no cell is missing.
///
/// An empty collection of results is the one input that is rejected.
pub fn assemble_result_dataframe<V: Copy>(
    group_results: Vec<(String, Vec<(String, V)>)>,
    column_id: &str,
    fill: V,
) -> (table: Result<Table<V>, AssemblyError>)
    ensures
        group_results@.len() == 0 ==> table == Err::<Table<V>, AssemblyError>(
            AssemblyError::NoGroupResults,
        ),
        group_results@.len() > 0 ==> (table matches Ok(t) && t@ == assembled(
            groups(group_results@),
            column_id@,
            fill,
        )),
{
    if group_results.len() == 0 {
        return Err(AssemblyError::NoGroupResults);
    }
    let ghost all = groups(group_results@);
    let names = collect_names(&group_results);
    let ghost listing = texts(names@);

    let mut ids: Vec<String> = Vec::new();
    let mut g: usize = 0;
    while g < group_results.len()
        invariant
            g <= group_results@.len(),
            all == groups(group_results@),
            texts(ids@) == all.take(g as int).map_values(
                |r: (Seq<char>, Named<V>)| r.0,
            ),
        decreases group_results@.len() - g,
    {
        let ghost before = ids@;
        let id = group_results[g].0.clone();
        ids.push(id);
        assert(texts(ids@) =~= texts(before).push(id@));
        assert(texts(ids@) =~= all.take(g + 1).map_values(
            |r: (Seq<char>, Named<V>)| r.0,
        ));
        g += 1;
    }
    assert(all.take(g as int) =~= all);

    let mut rows: Vec<Vec<V>> = Vec::new();
    let mut g: usize = 0;
    while g < group_results.len()
        invariant
            g <= group_results@.len(),
            all == groups(group_results@),
            listing == texts(names@),
            increasing(listing),
            rows@.len() == g,
            forall|i: int|
                0 <= i < g ==> (#[trigger] rows@[i])@ == listing.map_values(
                    |name: Seq<char>| lookup(all[i].1, name, fill),
                ),
        decreases group_results@.len() - g,
    {
        let row = group_row(&group_results[g].1, &names, fill);
        assert(pairs(group_results@[g as int].1@) == all[g as int].1);
        rows.push(row);
        g += 1;
    }

    let mut columns: Vec<Column<V>> = Vec::new();
    columns.push(Column { name: column_id.to_owned(), data: ColumnData::Text(ids) });
    assert(columns_view(columns@) =~= seq![id_column(all, column_id@)]);

    let mut n: usize = 0;
    while n < names.len()
        invariant
            n <= names@.len(),
            all == groups(group_results@),
            listing == texts(names@),
            rows@.len() == all.len(),
            forall|i: int|
                0 <= i < all.len() ==> (#[trigger] rows@[i])@ == listing.map_values(
                    |name: Seq<char>| lookup(all[i].1, name, fill),
                ),
            columns_view(columns@) == seq![id_column(all, column_id@)] + listing.take(
                n as int,
            ).map_values(|name: Seq<char>| feature_column(all, name, fill)),
        decreases names@.len() - n,
    {
        let ghost name = listing[n as int];
        let mut values: Vec<Option<V>> = Vec::new();
        let mut g: usize = 0;
        while g < rows.len()
            invariant
                g <= rows@.len(),
                n < names@.len(),
                listing == texts(names@),
                name == listing[n as int],
                rows@.len() == all.len(),
                forall|i: int|
                    0 <= i < all.len() ==> (#[trigger] rows@[i])@ == listing.map_values(
                        |name: Seq<char>| lookup(all[i].1, name, fill),
                    ),
                values@ == all.take(g as int).map_values(
                    |r: (Seq<char>, Named<V>)| Some(lookup(r.1, name, fill)),
                ),
            decreases rows@.len() - g,
        {
            let row = &rows[g];
            assert(row@ == listing.map_values(
                |name: Seq<char>| lookup(all[g as int].1, name, fill),
            ));
            values.push(Some(row[n]));
            assert(values@ =~= all.take(g + 1).map_values(
                |r: (Seq<char>, Named<V>)| Some(lookup(r.1, name, fill)),
            ));
            g += 1;
        }
        assert(all.take(g as int) =~= all);
        let ghost before = columns@;
        let column = Column { name: names[n].clone(), data: ColumnData::Num(values) };
        assert(column@ == feature_column(all, name, fill));
        columns.push(column);
        assert(columns_view(columns@) =~= columns_view(before).push(column@));
        assert(columns_view(columns@) =~= seq![id_column(all, column_id@)] + listing.take(
            n + 1,
        ).map_values(|name: Seq<char>| feature_column(all, name, fill)));
        n += 1;
    }
    assert(listing.take(n as int) =~= listing);
    assert(columns_view(columns@) == assembled(all, column_id@, fill));
    assert(uniform(columns_view(columns@))) by {
        let view = columns_view(columns@);
        assert forall|i: int| 0 <= i < view.len() implies (#[trigger] view[i]).cells.len()
            == all.len() by {
            if i > 0 {
                assert(view[i] == feature_column(all, listing[i - 1], fill));
            }
        }
    }
    Ok(Table::from_columns(columns))
}

} // verus!
