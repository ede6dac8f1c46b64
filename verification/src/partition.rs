//! The partitioner: one sub-table per distinct value of the id column.

use vstd::prelude::*;
use crate::error::{SchemaError, SchemaFault};
use crate::names::{
    increasing, lemma_sorted_names, lemma_sorted_names_lists, lists, sorted_names, text_order,
};
use crate::order::{
    KeyCells, Keys, is_stable_order, lemma_row_order_strict_total, lemma_stable_order_exists,
    lemma_stable_order_rows, row_order, sort_rows,
};
use crate::sorted::{
    ascending, lemma_ascending_strict_total, lemma_sorted_by_unique, same_elements, sorted_by,
    strict_total,
};
use crate::table::{
    Cells, ColumnData, ColumnView, Table, column_of, height_of, lemma_position,
    lemma_take_rows_uniform, lemma_without_uniform, names_of, position, row_numbers, take_rows,
    uniform, without,
};
use crate::text::{decimal, decimal_text, lemma_text_lt_strict_total, same_text, text_lt, texts};

verus! {

/// The ids of the rows as canonical text: text as it stands, an integer in
/// decimal. Observations have no canonical text.
pub open spec fn canonical_ids<V>(cells: Cells<V>) -> Option<Seq<Seq<char>>> {
    match cells {
        Cells::Text(s) => Some(s),
        Cells::Int(s) => Some(s.map_values(|n: i64| decimal(n as int))),
        Cells::Num(_) => None,
    }
}

/// The rows below `n` whose id is `id`, in increasing order.
pub open spec fn rows_with(ids: Seq<Seq<char>>, id: Seq<char>, n: nat) -> Seq<int>
    decreases n,
{
    if n == 0 {
        Seq::empty()
    } else if ids[n - 1] == id {
        rows_with(ids, id, (n - 1) as nat).push(n - 1)
    } else {
        rows_with(ids, id, (n - 1) as nat)
    }
}

/// The partition of one id: the rows that bear it, in the order in which
/// they stand in the table, of every column but the id column.
pub open spec fn partition_of<V>(
    table: Seq<ColumnView<V>>,
    column_id: Seq<char>,
    ids: Seq<Seq<char>>,
    id: Seq<char>,
) -> Seq<ColumnView<V>> {
    take_rows(without(table, column_id), rows_with(ids, id, ids.len()))
}

/// The content of a list of partitions: each id with its sub-table.
pub type Partitions<V> = Seq<(Seq<char>, Seq<ColumnView<V>>)>;

/// The partitions of a table: one for each distinct id, in increasing order
/// of the ids.
pub open spec fn partitioned<V>(table: Seq<ColumnView<V>>, column_id: Seq<char>) -> Result<
    Partitions<V>,
    SchemaFault,
> {
    match column_of(table, column_id) {
        None => Err(SchemaFault::MissingColumn(column_id)),
        Some(column) => match canonical_ids(column.cells) {
            None => Err(SchemaFault::UnusableIdColumn(column_id)),
            Some(ids) => Ok(
                sorted_names(ids.to_set()).map_values(
                    |id: Seq<char>| (id, partition_of(table, column_id, ids, id)),
                ),
            ),
        },
    }
}

/// The content of a list of partitions.
pub open spec fn parts<V>(partitions: Seq<(String, Table<V>)>) -> Partitions<V> {
    partitions.map_values(|p: (String, Table<V>)| (p.0@, p.1@))
}

/// The rows `rows_with` lists are the rows below `n` that bear the id, each
/// once, in increasing order.
pub proof fn lemma_rows_with(ids: Seq<Seq<char>>, id: Seq<char>, n: nat)
    requires
        n <= ids.len(),
    ensures
        sorted_by(rows_with(ids, id, n), ascending()),
        forall|r: int|
            #[trigger] rows_with(ids, id, n).contains(r) <==> 0 <= r < n && ids[r] == id,
    decreases n,
{
    if n > 0 {
        let earlier = rows_with(ids, id, (n - 1) as nat);
        lemma_rows_with(ids, id, (n - 1) as nat);
        if ids[n - 1] == id {
            let rows = earlier.push(n - 1);
            assert(rows == rows_with(ids, id, n));
            assert forall|p: int, q: int| 0 <= p < q < rows.len() implies ascending()(
                #[trigger] rows[p],
                #[trigger] rows[q],
            ) by {
                assert(rows[p] == earlier[p]);
                assert(earlier.contains(earlier[p]));
                assert(0 <= earlier[p] < n - 1);
                if q < earlier.len() {
                    assert(rows[q] == earlier[q]);
                    assert(ascending()(earlier[p], earlier[q]));
                } else {
                    assert(rows[q] == n - 1);
                }
            }
            assert forall|r: int| #[trigger] rows.contains(r) <==> 0 <= r < n && ids[r] == id by {
                if rows.contains(r) {
                    let k = choose|k: int| 0 <= k < rows.len() && rows[k] == r;
                    if k < earlier.len() {
                        assert(rows[k] == earlier[k]);
                        assert(earlier.contains(earlier[k]));
                    } else {
                        assert(rows[k] == n - 1);
                    }
                }
                if 0 <= r < n && ids[r] == id {
                    if r < n - 1 {
                        assert(earlier.contains(r));
                        let k = choose|k: int| 0 <= k < earlier.len() && earlier[k] == r;
                        assert(rows[k] == r);
                    } else {
                        assert(rows[earlier.len() as int] == r);
                    }
                }
            }
        }
    }
}

/// The ids of the partitions of a table, in the order of the partitions.
pub open spec fn partition_ids<V>(partitions: Partitions<V>) -> Seq<Seq<char>> {
    partitions.map_values(|p: (Seq<char>, Seq<ColumnView<V>>)| p.0)
}

/// What partitioning yields, for a table whose columns have equal length.
///
/// The ids of the partitions are in increasing order, so none occurs twice.
/// They are exactly the ids that occur in the id column: every row belongs to
/// one partition, and no partition is without rows. Every partition has the
/// columns of the table other than the id column, under their names and in
/// their order, and as many rows as bear its id.
pub proof fn lemma_partitioned<V>(table: Seq<ColumnView<V>>, column_id: Seq<char>)
    requires
        uniform(table),
    ensures
        partitioned(table, column_id) matches Ok(partitions) ==> ({
            let ids = canonical_ids(column_of(table, column_id)->0.cells)->0;
            &&& ids.len() == height_of(table)
            &&& lists(partition_ids(partitions), ids.to_set())
            &&& forall|k: int|
                0 <= k < partitions.len() ==> {
                    let rows = rows_with(ids, (#[trigger] partitions[k]).0, ids.len());
                    &&& rows.len() > 0
                    &&& partitions[k].1 == take_rows(without(table, column_id), rows)
                    &&& names_of(partitions[k].1) == names_of(without(table, column_id))
                    &&& uniform(partitions[k].1)
                    &&& partitions[k].1.len() > 0 ==> height_of(partitions[k].1) == rows.len()
                }
        }),
{
    if partitioned(table, column_id) is Ok {
        let partitions = partitioned(table, column_id)->Ok_0;
        let at = position(table, column_id)->0;
        lemma_position(table, column_id);
        assert(table[at].cells.len() == table[0].cells.len());
        let ids = canonical_ids(table[at].cells)->0;
        let listing = sorted_names(ids.to_set());
        lemma_sorted_names_lists(ids);
        assert(partition_ids(partitions) =~= listing);
        let rest = without(table, column_id);
        assert forall|k: int| 0 <= k < partitions.len() implies {
            let rows = rows_with(ids, (#[trigger] partitions[k]).0, ids.len());
            &&& rows.len() > 0
            &&& partitions[k].1 == take_rows(rest, rows)
            &&& names_of(partitions[k].1) == names_of(rest)
            &&& uniform(partitions[k].1)
            &&& partitions[k].1.len() > 0 ==> height_of(partitions[k].1) == rows.len()
        } by {
            let id = partitions[k].0;
            let rows = rows_with(ids, id, ids.len());
            assert(id == listing[k]);
            assert(listing.contains(id));
            assert(ids.contains(id));
            let r = choose|r: int| 0 <= r < ids.len() && ids[r] == id;
            lemma_rows_with(ids, id, ids.len());
            assert(rows.contains(r));
            assert(names_of(take_rows(rest, rows)) =~= names_of(rest));
            lemma_take_rows_uniform(rest, rows);
        }
    }
}

/// Writes every integer in decimal.
fn decimal_texts(cells: &Vec<i64>) -> (ids: Vec<String>)
    ensures
        texts(ids@) == cells@.map_values(|n: i64| decimal(n as int)),
{
    let ghost expected = cells@.map_values(|n: i64| decimal(n as int));
    let mut ids: Vec<String> = Vec::new();
    let mut i: usize = 0;
    while i < cells.len()
        invariant
            i <= cells@.len(),
            expected == cells@.map_values(|n: i64| decimal(n as int)),
            texts(ids@) == expected.take(i as int),
        decreases cells@.len() - i,
    {
        let ghost before = ids@;
        let id = decimal_text(cells[i]);
        ids.push(id);
        assert(texts(ids@) =~= texts(before).push(id@));
        assert(texts(ids@) =~= expected.take(i + 1));
        i += 1;
    }
    assert(expected.take(i as int) =~= expected);
    ids
}

/// Splits a table into one sub-table per distinct value of the id column.
///
/// Ids are compared as canonical text. The partitions come in increasing
/// order of their ids. Each holds, of every column but the id column, the
/// rows that bear its id, in the order in which they stand in the table.
///
/// Fails where no column bears the name `column_id`, and where the column
/// that does holds observations.
pub fn get_partitioned_dataframes<V: Copy>(df: &Table<V>, column_id: &str) -> (answer: Result<
    Vec<(String, Table<V>)>,
    SchemaError,
>)
    ensures
        match partitioned(df@, column_id@) {
            Ok(expected) => answer matches Ok(found) && parts(found@) == expected,
            Err(fault) => answer matches Err(e) && e@ == fault,
        },
{
    match df.column(column_id) {
        None => Err(SchemaError::MissingColumn(column_id.to_owned())),
        Some(column) => match &column.data {
            ColumnData::Text(cells) => Ok(partition_by(df, column_id, cells)),
            ColumnData::Int(cells) => {
                let ids = decimal_texts(cells);
                Ok(partition_by(df, column_id, &ids))
            },
            ColumnData::Num(_) => Err(SchemaError::UnusableIdColumn(column_id.to_owned())),
        },
    }
}

/// Splits a table by the canonical ids of its rows. Sorting the rows by id
/// puts the rows of each partition side by side, in the order in which they
/// stand in the table; the partitions are then cut off one after the other.
fn partition_by<V: Copy>(df: &Table<V>, column_id: &str, ids: &Vec<String>) -> (partitions: Vec<
    (String, Table<V>),
>)
    requires
        column_of(df@, column_id@) matches Some(column) && canonical_ids(column.cells) == Some(
            texts(ids@),
        ),
    ensures
        partitioned(df@, column_id@) == Ok::<Partitions<V>, SchemaFault>(
            parts(partitions@),
        ),
{
    let ghost all = texts(ids@);
    let rest = df.without(column_id);
    let height = df.height();
    proof {
        let at = position(df@, column_id@)->0;
        lemma_position(df@, column_id@);
        assert(df@[at].cells.len() == df@[0].cells.len());
        assert(all.len() == height_of(df@));
        lemma_without_uniform(df@, column_id@);
    }
    let keys = Keys::Text(ids);
    let order = sort_rows(&keys);
    let ghost sorted = row_numbers(order@);
    let ghost lt = row_order(keys@);
    proof {
        lemma_stable_order_exists(keys@);
        lemma_stable_order_rows(keys@, sorted);
        lemma_row_order_strict_total(keys@);
    }
    let n = order.len();
    assert forall|p: int| 0 <= p < n implies #[trigger] order@[p] < n by {
        assert(sorted[p] == order@[p]);
    }
    let mut partitions: Vec<(String, Table<V>)> = Vec::new();
    let ghost mut listing: Seq<Seq<char>> = Seq::empty();
    let mut k: usize = 0;
    assert(parts(partitions@) =~= listing.map_values(
        |id: Seq<char>| (id, partition_of(df@, column_id@, all, id)),
    ));
    while k < n
        invariant
            k <= n,
            n == order@.len(),
            n == all.len(),
            all == texts(ids@),
            keys@ == KeyCells::Text(all),
            ids@.len() == n,
            sorted == row_numbers(order@),
            lt == row_order(keys@),
            strict_total(lt),
            is_stable_order(keys@, sorted),
            forall|p: int| 0 <= p < n ==> 0 <= #[trigger] sorted[p] < n,
            forall|p: int| 0 <= p < n ==> #[trigger] order@[p] < n,
            all.len() == height_of(df@),
            rest@ == without(df@, column_id@),
            rest@.len() > 0 ==> height_of(rest@) == height_of(df@),
            increasing(listing),
            forall|x: Seq<char>|
                listing.contains(x) <==> exists|p: int|
                    0 <= p < k && all[#[trigger] sorted[p]] == x,
            forall|p: int, q: int|
                0 <= p < k && k <= q < n ==> text_lt(
                    all[#[trigger] sorted[p]],
                    all[#[trigger] sorted[q]],
                ),
            parts(partitions@) == listing.map_values(
                |id: Seq<char>| (id, partition_of(df@, column_id@, all, id)),
            ),
        decreases n - k,
    {
        let start = k;
        assert(sorted[start as int] == order@[start as int]);
        let id = ids[order[start]].clone();
        assert(id@ == all[sorted[start as int]]);
        let mut rows: Vec<usize> = Vec::new();
        assert(row_numbers(rows@) =~= sorted.subrange(start as int, k as int));
        while k < n && same_text(ids[order[k]].as_str(), id.as_str())
            invariant
                start <= k <= n,
                n == order@.len(),
                n == all.len(),
                all == texts(ids@),
                ids@.len() == n,
                sorted == row_numbers(order@),
                forall|p: int| 0 <= p < n ==> 0 <= #[trigger] sorted[p] < n,
                forall|p: int| 0 <= p < n ==> #[trigger] order@[p] < n,
                row_numbers(rows@) == sorted.subrange(start as int, k as int),
                forall|p: int| start <= p < k ==> all[#[trigger] sorted[p]] == id@,
            decreases n - k,
        {
            let ghost before = rows@;
            assert(sorted[k as int] == order@[k as int]);
            rows.push(order[k]);
            assert(row_numbers(rows@) =~= row_numbers(before).push(order@[k as int] as int));
            assert(row_numbers(rows@) =~= sorted.subrange(start as int, k + 1));
            k += 1;
        }
        proof {
            let run = row_numbers(rows@);
            // the run is not empty, since it holds at least the row it began with
            assert(k > start) by {
                assert(sorted[start as int] == order@[start as int]);
            }
            if k < n {
                assert(sorted[k as int] == order@[k as int]);
                assert(all[sorted[k as int]] != id@);
            }
            // every later row bears a higher id
            assert forall|q: int| k <= q < n implies text_lt(id@, all[#[trigger] sorted[q]]) by {
                assert(lt(sorted[start as int], sorted[k as int]));
                lemma_text_lt_strict_total(id@, all[sorted[k as int]], id@);
                if q > k {
                    assert(lt(sorted[k as int], sorted[q]));
                    lemma_text_lt_strict_total(id@, all[sorted[k as int]], all[sorted[q]]);
                    lemma_text_lt_strict_total(all[sorted[k as int]], all[sorted[q]], id@);
                    lemma_text_lt_strict_total(
                        all[sorted[q]],
                        all[sorted[k as int]],
                        all[sorted[q]],
                    );
                }
            }
            // the run holds the rows that bear the id, in increasing order
            lemma_text_lt_strict_total(id@, id@, id@);
            assert forall|p: int, q: int| 0 <= p < q < run.len() implies ascending()(
                #[trigger] run[p],
                #[trigger] run[q],
            ) by {
                assert(run[p] == sorted[start + p]);
                assert(run[q] == sorted[start + q]);
                assert(lt(sorted[start + p], sorted[start + q]));
            }
            assert forall|r: int| #[trigger] run.contains(r) <==> 0 <= r < n && all[r] == id@ by {
                if run.contains(r) {
                    let p = choose|p: int| 0 <= p < run.len() && run[p] == r;
                    assert(run[p] == sorted[start + p]);
                }
                if 0 <= r < n && all[r] == id@ {
                    assert(sorted.contains(r));
                    let m = choose|m: int| 0 <= m < sorted.len() && sorted[m] == r;
                    if m < start {
                        assert(text_lt(all[sorted[m]], all[sorted[start as int]]));
                    }
                    if m >= k {
                        assert(text_lt(id@, all[sorted[m]]));
                    }
                    assert(run[m - start] == r);
                }
            }
            lemma_rows_with(all, id@, n as nat);
            assert(same_elements(run, rows_with(all, id@, n as nat)));
            lemma_ascending_strict_total();
            lemma_sorted_by_unique(run, rows_with(all, id@, n as nat), ascending());
            // the boundary moves to the end of the run
            assert forall|p: int, q: int| 0 <= p < k && k <= q < n implies text_lt(
                all[#[trigger] sorted[p]],
                all[#[trigger] sorted[q]],
            ) by {
                if p < start {
                    assert(text_lt(all[sorted[p]], all[sorted[q]]));
                }
            }
            // and the id joins the listing, above all that are listed
            let earlier = listing;
            listing = listing.push(id@);
            assert forall|p: int, q: int| 0 <= p < q < listing.len() implies text_order()(
                #[trigger] listing[p],
                #[trigger] listing[q],
            ) by {
                if q < earlier.len() {
                    assert(text_order()(earlier[p], earlier[q]));
                } else {
                    assert(earlier.contains(earlier[p]));
                    let m = choose|m: int|
                        0 <= m < start && all[#[trigger] sorted[m]] == earlier[p];
                    assert(text_lt(all[sorted[m]], all[sorted[start as int]]));
                }
            }
            assert forall|x: Seq<char>|
                listing.contains(x) <==> exists|p: int|
                    0 <= p < k && all[#[trigger] sorted[p]] == x by {
                if listing.contains(x) {
                    let i = choose|i: int| 0 <= i < listing.len() && listing[i] == x;
                    if i < earlier.len() {
                        assert(earlier.contains(earlier[i]));
                        let m = choose|m: int| 0 <= m < start && all[#[trigger] sorted[m]] == x;
                        assert(0 <= m < k && all[sorted[m]] == x);
                    } else {
                        assert(0 <= start < k && all[sorted[start as int]] == x);
                    }
                }
                if exists|p: int| 0 <= p < k && all[#[trigger] sorted[p]] == x {
                    let p = choose|p: int| 0 <= p < k && all[#[trigger] sorted[p]] == x;
                    if p < start {
                        assert(earlier.contains(x));
                        let i = choose|i: int| 0 <= i < earlier.len() && earlier[i] == x;
                        assert(listing[i] == x);
                    } else {
                        assert(listing[earlier.len() as int] == x);
                    }
                }
            }
        }
        let table = rest.take_rows(&rows);
        let ghost before = partitions@;
        let part = (id, table);
        partitions.push(part);
        assert(parts(partitions@) =~= parts(before).push((part.0@, part.1@)));
        assert(parts(partitions@) =~= listing.map_values(
            |id: Seq<char>| (id, partition_of(df@, column_id@, all, id)),
        ));
    }
    proof {
        assert forall|x: Seq<char>| listing.contains(x) <==> all.to_set().contains(x) by {
            if listing.contains(x) {
                let p = choose|p: int| 0 <= p < k && all[#[trigger] sorted[p]] == x;
                assert(all.contains(x));
            }
            if all.contains(x) {
                let r = choose|r: int| 0 <= r < all.len() && all[r] == x;
                assert(sorted.contains(r));
                let m = choose|m: int| 0 <= m < sorted.len() && sorted[m] == r;
                assert(0 <= m < k && all[sorted[m]] == x);
            }
        }
        assert(lists(listing, all.to_set()));
        lemma_sorted_names(listing, all.to_set());
    }
    partitions
}

} // verus!
