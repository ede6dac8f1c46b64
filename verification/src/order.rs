//! The stable order of the rows of a table by a key column.

use vstd::prelude::*;
use vstd::set_lib::{lemma_int_range, set_int_range};
use crate::sorted::{
    lemma_sorted_by_distinct, lemma_sorted_by_unique, lemma_sorted_listing_exists,
    same_elements, sorted_by, strict_total,
};
use crate::table::{Cells, row_numbers};
use crate::text::{lemma_text_lt_strict_total, text_before, text_lt, texts};

verus! {

/// The keys by which rows are ordered: integers or text, one per row.
#[derive(Debug, Clone, Copy)]
pub enum Keys<'a> {
    Int(&'a Vec<i64>),
    Text(&'a Vec<String>),
}

/// The mathematical content of a column of keys.
pub enum KeyCells {
    Int(Seq<i64>),
    Text(Seq<Seq<char>>),
}

impl KeyCells {
    /// Number of keys.
    pub open spec fn len(self) -> nat {
        match self {
            KeyCells::Int(s) => s.len(),
            KeyCells::Text(s) => s.len(),
        }
    }
}

impl<'a> View for Keys<'a> {
    type V = KeyCells;

    open spec fn view(&self) -> KeyCells {
        match self {
            Keys::Int(v) => KeyCells::Int(v@),
            Keys::Text(v) => KeyCells::Text(texts(v@)),
        }
    }
}

/// The keys that the cells of a column give: integers and text are keys,
/// observations are not.
pub open spec fn keys_of<V>(cells: Cells<V>) -> Option<KeyCells> {
    match cells {
        Cells::Int(s) => Some(KeyCells::Int(s)),
        Cells::Text(s) => Some(KeyCells::Text(s)),
        Cells::Num(_) => None,
    }
}

/// The key of row `a` is strictly below that of row `b`: integers by value,
/// text in the order of names.
pub open spec fn key_lt(keys: KeyCells, a: int, b: int) -> bool {
    match keys {
        KeyCells::Int(s) => s[a] < s[b],
        KeyCells::Text(s) => text_lt(s[a], s[b]),
    }
}

/// Row `a` comes before row `b`: its key is lower, or the keys tie and `a` is
/// the earlier row.
pub open spec fn row_lt(keys: KeyCells, a: int, b: int) -> bool {
    key_lt(keys, a, b) || (!key_lt(keys, b, a) && a < b)
}

/// The order of rows as a relation.
pub open spec fn row_order(keys: KeyCells) -> spec_fn(int, int) -> bool {
    |a: int, b: int| row_lt(keys, a, b)
}

/// `order` lists every row once, by ascending key, rows of equal key in the
/// order in which they stand.
pub open spec fn is_stable_order(keys: KeyCells, order: Seq<int>) -> bool {
    &&& sorted_by(order, row_order(keys))
    &&& forall|r: int| order.contains(r) <==> 0 <= r < keys.len()
}

/// The rows in stable ascending order of their keys.
pub open spec fn stable_order(keys: KeyCells) -> Seq<int> {
    choose|order: Seq<int>| is_stable_order(keys, order)
}

/// The order of rows is a strict total order, whatever the keys.
pub proof fn lemma_row_order_strict_total(keys: KeyCells)
    ensures
        strict_total(row_order(keys)),
{
    let lt = row_order(keys);
    match keys {
        KeyCells::Text(s) => {
            assert forall|a: int| !#[trigger] lt(a, a) by {
                lemma_text_lt_strict_total(s[a], s[a], s[a]);
            }
            assert forall|a: int, b: int, c: int| #[trigger] lt(a, b) && #[trigger] lt(
                b,
                c,
            ) implies lt(a, c) by {
                lemma_text_lt_strict_total(s[a], s[b], s[c]);
                lemma_text_lt_strict_total(s[b], s[c], s[a]);
                lemma_text_lt_strict_total(s[c], s[a], s[b]);
                lemma_text_lt_strict_total(s[a], s[c], s[b]);
                lemma_text_lt_strict_total(s[c], s[b], s[a]);
                lemma_text_lt_strict_total(s[b], s[a], s[c]);
            }
            assert forall|a: int, b: int| #[trigger] lt(a, b) || lt(b, a) || a == b by {
                lemma_text_lt_strict_total(s[a], s[b], s[a]);
            }
        },
        _ => {},
    }
}

/// A column of keys has one stable order.
pub proof fn lemma_stable_order(keys: KeyCells, order: Seq<int>)
    requires
        is_stable_order(keys, order),
    ensures
        order == stable_order(keys),
{
    let chosen = stable_order(keys);
    assert(is_stable_order(keys, chosen));
    lemma_row_order_strict_total(keys);
    lemma_sorted_by_unique(order, chosen, row_order(keys));
}

/// Every column of keys has a stable order.
pub proof fn lemma_stable_order_exists(keys: KeyCells)
    ensures
        is_stable_order(keys, stable_order(keys)),
{
    lemma_row_order_strict_total(keys);
    let rows = Seq::new(keys.len(), |r: int| r);
    lemma_sorted_listing_exists(rows, row_order(keys));
    let order = choose|order: Seq<int>|
        sorted_by(order, row_order(keys)) && #[trigger] same_elements(order, rows);
    assert forall|r: int| order.contains(r) <==> 0 <= r < keys.len() by {
        if 0 <= r < keys.len() {
            assert(rows[r] == r);
            assert(rows.contains(r));
        }
        if rows.contains(r) {
            let k = choose|k: int| 0 <= k < rows.len() && rows[k] == r;
        }
    }
    assert(is_stable_order(keys, order));
}

/// The stable order is a rearrangement of the rows: it has as many entries
/// as the column has cells, each a row of the column, none twice.
pub proof fn lemma_stable_order_rows(keys: KeyCells, order: Seq<int>)
    requires
        is_stable_order(keys, order),
    ensures
        order.len() == keys.len(),
        order.no_duplicates(),
        forall|k: int| 0 <= k < order.len() ==> 0 <= #[trigger] order[k] < keys.len(),
{
    assert forall|k: int| 0 <= k < order.len() implies 0 <= #[trigger] order[k] < keys.len() by {
        assert(order.contains(order[k]));
    }
    lemma_row_order_strict_total(keys);
    lemma_sorted_by_distinct(order, row_order(keys));
    order.unique_seq_to_set();
    lemma_int_range(0, keys.len() as int);
    assert(order.to_set() =~= set_int_range(0, keys.len() as int));
}

/// Whether the key of row `a` is strictly below that of row `b`.
fn key_before(keys: &Keys, a: usize, b: usize) -> (before: bool)
    requires
        a < keys@.len(),
        b < keys@.len(),
    ensures
        before == key_lt(keys@, a as int, b as int),
{
    match keys {
        Keys::Int(cells) => cells[a] < cells[b],
        Keys::Text(cells) => {
            assert(texts(cells@)[a as int] == cells@[a as int]@);
            assert(texts(cells@)[b as int] == cells@[b as int]@);
            text_before(cells[a].as_str(), cells[b].as_str())
        },
    }
}

/// Whether row `a` comes before row `b`.
fn row_before(keys: &Keys, a: usize, b: usize) -> (before: bool)
    requires
        a < keys@.len(),
        b < keys@.len(),
    ensures
        before == row_lt(keys@, a as int, b as int),
{
    proof {
        // a key is not both below and above another
        match keys@ {
            KeyCells::Text(s) => {
                lemma_text_lt_strict_total(s[a as int], s[b as int], s[a as int]);
                lemma_text_lt_strict_total(s[a as int], s[a as int], s[a as int]);
            },
            _ => {},
        }
    }
    if a < b {
        !key_before(keys, b, a)
    } else {
        key_before(keys, a, b)
    }
}

/// The rows listed are rows of the column.
pub open spec fn rows_of(keys: KeyCells, rows: Seq<usize>) -> bool {
    forall|k: int| 0 <= k < rows.len() ==> #[trigger] rows[k] < keys.len()
}

/// Merges two sorted lists of rows that have no row in common.
fn merge_rows(keys: &Keys, left: &Vec<usize>, right: &Vec<usize>) -> (merged: Vec<usize>)
    requires
        rows_of(keys@, left@),
        rows_of(keys@, right@),
        sorted_by(row_numbers(left@), row_order(keys@)),
        sorted_by(row_numbers(right@), row_order(keys@)),
        forall|p: int, q: int|
            0 <= p < left@.len() && 0 <= q < right@.len() ==> #[trigger] left@[p]
                != #[trigger] right@[q],
    ensures
        rows_of(keys@, merged@),
        sorted_by(row_numbers(merged@), row_order(keys@)),
        forall|x: int|
            row_numbers(merged@).contains(x) <==> (row_numbers(left@).contains(x) || row_numbers(
                right@,
            ).contains(x)),
{
    let ghost lt = row_order(keys@);
    let ghost l = row_numbers(left@);
    let ghost r = row_numbers(right@);
    let mut merged: Vec<usize> = Vec::new();
    let mut i: usize = 0;
    let mut j: usize = 0;
    proof {
        lemma_row_order_strict_total(keys@);
    }
    while i < left.len() || j < right.len()
        invariant
            i <= left@.len(),
            j <= right@.len(),
            lt == row_order(keys@),
            strict_total(lt),
            l == row_numbers(left@),
            r == row_numbers(right@),
            rows_of(keys@, left@),
            rows_of(keys@, right@),
            rows_of(keys@, merged@),
            sorted_by(l, lt),
            sorted_by(r, lt),
            forall|p: int, q: int| 0 <= p < l.len() && 0 <= q < r.len() ==> #[trigger] l[p]
                != #[trigger] r[q],
            sorted_by(row_numbers(merged@), lt),
            forall|p: int, q: int|
                0 <= p < merged@.len() && i <= q < l.len() ==> lt(
                    #[trigger] row_numbers(merged@)[p],
                    #[trigger] l[q],
                ),
            forall|p: int, q: int|
                0 <= p < merged@.len() && j <= q < r.len() ==> lt(
                    #[trigger] row_numbers(merged@)[p],
                    #[trigger] r[q],
                ),
            forall|x: int|
                row_numbers(merged@).contains(x) <==> ((exists|p: int|
                    0 <= p < i && #[trigger] l[p] == x) || (exists|q: int|
                    0 <= q < j && #[trigger] r[q] == x)),
        decreases left@.len() - i + right@.len() - j,
    {
        let ghost before = row_numbers(merged@);
        let from_left = if j >= right.len() {
            true
        } else if i >= left.len() {
            false
        } else {
            assert(l[i as int] == left@[i as int]);
            assert(r[j as int] == right@[j as int]);
            row_before(keys, left[i], right[j])
        };
        if from_left {
            let row = left[i];
            merged.push(row);
            proof {
                let after = row_numbers(merged@);
                assert(after =~= before.push(row as int));
                assert(l[i as int] == row);
                assert forall|p: int, q: int| 0 <= p < q < after.len() implies lt(
                    #[trigger] after[p],
                    #[trigger] after[q],
                ) by {
                    if q < before.len() {
                        assert(lt(before[p], before[q]));
                    } else {
                        assert(lt(before[p], l[i as int]));
                    }
                }
                assert forall|p: int, q: int|
                    0 <= p < after.len() && i + 1 <= q < l.len() implies lt(
                    #[trigger] after[p],
                    #[trigger] l[q],
                ) by {
                    if p < before.len() {
                        assert(lt(before[p], l[q]));
                    } else {
                        assert(lt(l[i as int], l[q]));
                    }
                }
                assert forall|p: int, q: int| 0 <= p < after.len() && j <= q < r.len() implies lt(
                    #[trigger] after[p],
                    #[trigger] r[q],
                ) by {
                    if p < before.len() {
                        assert(lt(before[p], r[q]));
                    } else {
                        assert(lt(l[i as int], r[j as int]));
                        if q > j {
                            assert(lt(r[j as int], r[q]));
                        }
                    }
                }
                assert forall|x: int|
                    after.contains(x) <==> ((exists|p: int| 0 <= p < i + 1 && #[trigger] l[p] == x)
                        || (exists|q: int| 0 <= q < j && #[trigger] r[q] == x)) by {
                    if after.contains(x) {
                        let k = choose|k: int| 0 <= k < after.len() && after[k] == x;
                        if k < before.len() {
                            assert(before[k] == x);
                            assert(before.contains(x));
                            if exists|p: int| 0 <= p < i && #[trigger] l[p] == x {
                                let p = choose|p: int| 0 <= p < i && #[trigger] l[p] == x;
                                assert(0 <= p < i + 1 && l[p] == x);
                            }
                        } else {
                            assert(0 <= i < i + 1 && l[i as int] == x);
                        }
                    }
                    if exists|p: int| 0 <= p < i + 1 && #[trigger] l[p] == x {
                        let p = choose|p: int| 0 <= p < i + 1 && #[trigger] l[p] == x;
                        if p < i {
                            assert(before.contains(x));
                            let k = choose|k: int| 0 <= k < before.len() && before[k] == x;
                            assert(after[k] == x);
                        } else {
                            assert(after[before.len() as int] == x);
                        }
                    }
                    if exists|q: int| 0 <= q < j && #[trigger] r[q] == x {
                        assert(before.contains(x));
                        let k = choose|k: int| 0 <= k < before.len() && before[k] == x;
                        assert(after[k] == x);
                    }
                }
            }
            i += 1;
        } else {
            let row = right[j];
            merged.push(row);
            proof {
                let after = row_numbers(merged@);
                assert(after =~= before.push(row as int));
                assert(r[j as int] == row);
                if i < l.len() {
                    assert(l[i as int] == left@[i as int]);
                    assert(l[i as int] != r[j as int]);
                    assert(lt(r[j as int], l[i as int]));
                }
                assert forall|p: int, q: int| 0 <= p < q < after.len() implies lt(
                    #[trigger] after[p],
                    #[trigger] after[q],
                ) by {
                    if q < before.len() {
                        assert(lt(before[p], before[q]));
                    } else {
                        assert(lt(before[p], r[j as int]));
                    }
                }
                assert forall|p: int, q: int|
                    0 <= p < after.len() && j + 1 <= q < r.len() implies lt(
                    #[trigger] after[p],
                    #[trigger] r[q],
                ) by {
                    if p < before.len() {
                        assert(lt(before[p], r[q]));
                    } else {
                        assert(lt(r[j as int], r[q]));
                    }
                }
                assert forall|p: int, q: int| 0 <= p < after.len() && i <= q < l.len() implies lt(
                    #[trigger] after[p],
                    #[trigger] l[q],
                ) by {
                    if p < before.len() {
                        assert(lt(before[p], l[q]));
                    } else {
                        assert(lt(r[j as int], l[i as int]));
                        if q > i {
                            assert(lt(l[i as int], l[q]));
                        }
                    }
                }
                assert forall|x: int|
                    after.contains(x) <==> ((exists|p: int| 0 <= p < i && #[trigger] l[p] == x)
                        || (exists|q: int| 0 <= q < j + 1 && #[trigger] r[q] == x)) by {
                    if after.contains(x) {
                        let k = choose|k: int| 0 <= k < after.len() && after[k] == x;
                        if k < before.len() {
                            assert(before[k] == x);
                            assert(before.contains(x));
                            if exists|q: int| 0 <= q < j && #[trigger] r[q] == x {
                                let q = choose|q: int| 0 <= q < j && #[trigger] r[q] == x;
                                assert(0 <= q < j + 1 && r[q] == x);
                            }
                        } else {
                            assert(0 <= j < j + 1 && r[j as int] == x);
                        }
                    }
                    if exists|q: int| 0 <= q < j + 1 && #[trigger] r[q] == x {
                        let q = choose|q: int| 0 <= q < j + 1 && #[trigger] r[q] == x;
                        if q < j {
                            assert(before.contains(x));
                            let k = choose|k: int| 0 <= k < before.len() && before[k] == x;
                            assert(after[k] == x);
                        } else {
                            assert(after[before.len() as int] == x);
                        }
                    }
                    if exists|p: int| 0 <= p < i && #[trigger] l[p] == x {
                        assert(before.contains(x));
                        let k = choose|k: int| 0 <= k < before.len() && before[k] == x;
                        assert(after[k] == x);
                    }
                }
            }
            j += 1;
        }
    }
    proof {
        let all = row_numbers(merged@);
        assert forall|x: int| all.contains(x) <==> (l.contains(x) || r.contains(x)) by {
            if l.contains(x) {
                let p = choose|p: int| 0 <= p < l.len() && l[p] == x;
                assert(0 <= p < i && l[p] == x);
            }
            if r.contains(x) {
                let q = choose|q: int| 0 <= q < r.len() && r[q] == x;
                assert(0 <= q < j && r[q] == x);
            }
        }
    }
    merged
}

/// Sorts the rows from `lo` up to `hi`, by merging the sorted halves.
fn sort_range(keys: &Keys, lo: usize, hi: usize) -> (order: Vec<usize>)
    requires
        lo <= hi <= keys@.len(),
    ensures
        rows_of(keys@, order@),
        sorted_by(row_numbers(order@), row_order(keys@)),
        forall|x: int| row_numbers(order@).contains(x) <==> lo <= x < hi,
    decreases hi - lo,
{
    let mut order: Vec<usize> = Vec::new();
    if hi - lo == 0 {
        return order;
    }
    if hi - lo == 1 {
        order.push(lo);
        assert(row_numbers(order@)[0] == lo);
        return order;
    }
    let mid = lo + (hi - lo) / 2;
    let left = sort_range(keys, lo, mid);
    let right = sort_range(keys, mid, hi);
    proof {
        assert forall|p: int, q: int|
            0 <= p < left@.len() && 0 <= q < right@.len() implies #[trigger] left@[p]
            != #[trigger] right@[q] by {
            assert(row_numbers(left@)[p] == left@[p]);
            assert(row_numbers(right@)[q] == right@[q]);
            assert(row_numbers(left@).contains(row_numbers(left@)[p]));
            assert(row_numbers(right@).contains(row_numbers(right@)[q]));
        }
    }
    merge_rows(keys, &left, &right)
}

/// Sorts the rows in ascending order of their keys, keeping rows of equal
/// key in the order in which they stand.
pub fn sort_rows(keys: &Keys) -> (order: Vec<usize>)
    ensures
        row_numbers(order@) == stable_order(keys@),
{
    let n = match keys {
        Keys::Int(cells) => cells.len(),
        Keys::Text(cells) => cells.len(),
    };
    let order = sort_range(keys, 0, n);
    proof {
        lemma_stable_order(keys@, row_numbers(order@));
    }
    order
}

} // verus!
