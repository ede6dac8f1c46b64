//! The table the pipeline reads and writes: named columns of equal length.
//!
//! A column holds integers, text, or observations of the caller's numeric type
//! `V`, of which any may be missing. The library copies and compares cells but
//! never computes with an observation.

use vstd::prelude::*;
use crate::order::{Keys, keys_of};
use crate::text::{same_text, texts};

verus! {

/// The cells of one column.
#[derive(Debug, PartialEq)]
pub enum ColumnData<V> {
    Int(Vec<i64>),
    Text(Vec<String>),
    Num(Vec<Option<V>>),
}

/// A named column.
#[derive(Debug, PartialEq)]
pub struct Column<V> {
    pub name: String,
    pub data: ColumnData<V>,
}

/// The mathematical content of a column's cells.
pub enum Cells<V> {
    Int(Seq<i64>),
    Text(Seq<Seq<char>>),
    Num(Seq<Option<V>>),
}

/// The mathematical content of a column.
pub struct ColumnView<V> {
    pub name: Seq<char>,
    pub cells: Cells<V>,
}

impl<V> Cells<V> {
    /// Number of cells.
    pub open spec fn len(self) -> nat {
        match self {
            Cells::Int(s) => s.len(),
            Cells::Text(s) => s.len(),
            Cells::Num(s) => s.len(),
        }
    }

    /// The cells at the given rows, in the order the rows are listed.
    pub open spec fn take_rows(self, rows: Seq<int>) -> Cells<V> {
        match self {
            Cells::Int(s) => Cells::Int(rows.map_values(|r: int| s[r])),
            Cells::Text(s) => Cells::Text(rows.map_values(|r: int| s[r])),
            Cells::Num(s) => Cells::Num(rows.map_values(|r: int| s[r])),
        }
    }
}

impl<V> View for ColumnData<V> {
    type V = Cells<V>;

    open spec fn view(&self) -> Cells<V> {
        match self {
            ColumnData::Int(v) => Cells::Int(v@),
            ColumnData::Text(v) => Cells::Text(texts(v@)),
            ColumnData::Num(v) => Cells::Num(v@),
        }
    }
}

impl<V> View for Column<V> {
    type V = ColumnView<V>;

    open spec fn view(&self) -> ColumnView<V> {
        ColumnView { name: self.name@, cells: self.data@ }
    }
}

/// The content of a list of columns.
pub open spec fn columns_view<V>(columns: Seq<Column<V>>) -> Seq<ColumnView<V>> {
    columns.map_values(|c: Column<V>| c@)
}

/// The names of a list of columns, in order.
pub open spec fn names_of<V>(columns: Seq<ColumnView<V>>) -> Seq<Seq<char>> {
    columns.map_values(|c: ColumnView<V>| c.name)
}

/// All columns have the same number of cells.
pub open spec fn uniform<V>(columns: Seq<ColumnView<V>>) -> bool {
    forall|i: int, j: int|
        0 <= i < columns.len() && 0 <= j < columns.len() ==> (#[trigger] columns[i]).cells.len()
            == (#[trigger] columns[j]).cells.len()
}

/// Number of rows: the length of every column, zero where there is none.
pub open spec fn height_of<V>(columns: Seq<ColumnView<V>>) -> nat {
    if columns.len() == 0 {
        0
    } else {
        columns[0].cells.len()
    }
}

/// The rows are all rows of a table of the given height.
pub open spec fn rows_within(rows: Seq<int>, height: nat) -> bool {
    forall|k: int| 0 <= k < rows.len() ==> 0 <= #[trigger] rows[k] < height
}

/// The table made of the given rows of every column.
pub open spec fn take_rows<V>(columns: Seq<ColumnView<V>>, rows: Seq<int>) -> Seq<ColumnView<V>> {
    columns.map_values(
        |c: ColumnView<V>| ColumnView { name: c.name, cells: c.cells.take_rows(rows) },
    )
}

/// The columns that do not bear the given name.
pub open spec fn named_otherwise<V>(name: Seq<char>) -> spec_fn(ColumnView<V>) -> bool {
    |c: ColumnView<V>| c.name != name
}

/// The table without the columns of the given name.
pub open spec fn without<V>(columns: Seq<ColumnView<V>>, name: Seq<char>) -> Seq<ColumnView<V>> {
    columns.filter(named_otherwise(name))
}

/// Position of the first column of the given name.
pub open spec fn position<V>(columns: Seq<ColumnView<V>>, name: Seq<char>) -> Option<int>
    decreases columns.len(),
{
    if columns.len() == 0 {
        None
    } else {
        match position(columns.drop_last(), name) {
            Some(i) => Some(i),
            None => if columns.last().name == name {
                Some(columns.len() - 1)
            } else {
                None
            },
        }
    }
}

/// `i` is where the first column of the given name stands.
pub open spec fn is_position<V>(columns: Seq<ColumnView<V>>, name: Seq<char>, i: int) -> bool {
    &&& 0 <= i < columns.len()
    &&& columns[i].name == name
    &&& forall|j: int| 0 <= j < i ==> (#[trigger] columns[j]).name != name
}

/// The first column of the given name.
pub open spec fn column_of<V>(columns: Seq<ColumnView<V>>, name: Seq<char>) -> Option<
    ColumnView<V>,
> {
    match position(columns, name) {
        Some(i) => Some(columns[i]),
        None => None,
    }
}

/// The cells that are present, in order.
pub open spec fn present<V>(cells: Seq<Option<V>>) -> Seq<V>
    decreases cells.len(),
{
    if cells.len() == 0 {
        Seq::empty()
    } else {
        match cells.last() {
            Some(v) => present(cells.drop_last()).push(v),
            None => present(cells.drop_last()),
        }
    }
}

/// Where no observation is missing, all are present.
pub proof fn lemma_present_all<V>(values: Seq<V>)
    ensures
        present(values.map_values(|v: V| Some(v))) == values,
    decreases values.len(),
{
    let cells = values.map_values(|v: V| Some(v));
    if values.len() > 0 {
        lemma_present_all(values.drop_last());
        assert(cells.drop_last() =~= values.drop_last().map_values(|v: V| Some(v)));
        assert(values =~= values.drop_last().push(values.last()));
    } else {
        assert(present(cells) =~= values);
    }
}

/// What is present is no longer than the column, and as long only where no
/// observation is missing.
pub proof fn lemma_present_len<V>(cells: Seq<Option<V>>)
    ensures
        present(cells).len() <= cells.len(),
        present(cells).len() == cells.len() <==> forall|i: int|
            0 <= i < cells.len() ==> (#[trigger] cells[i]) is Some,
    decreases cells.len(),
{
    if cells.len() > 0 {
        let front = cells.drop_last();
        lemma_present_len(front);
        if present(cells).len() == cells.len() {
            assert forall|i: int| 0 <= i < cells.len() implies (#[trigger] cells[i]) is Some by {
                if i < front.len() {
                    assert(front[i] == cells[i]);
                }
            }
        }
        if forall|i: int| 0 <= i < cells.len() ==> (#[trigger] cells[i]) is Some {
            assert(cells[cells.len() - 1] is Some);
            assert forall|i: int| 0 <= i < front.len() implies (#[trigger] front[i]) is Some by {
                assert(front[i] == cells[i]);
            }
        }
    }
}

/// The rows as mathematical integers.
pub open spec fn row_numbers(rows: Seq<usize>) -> Seq<int> {
    rows.map_values(|r: usize| r as int)
}

/// `position` finds the first column of the name, and finds none only where
/// no column bears it.
pub proof fn lemma_position<V>(columns: Seq<ColumnView<V>>, name: Seq<char>)
    ensures
        match position(columns, name) {
            Some(i) => is_position(columns, name, i),
            None => forall|j: int| 0 <= j < columns.len() ==> (#[trigger] columns[j]).name != name,
        },
    decreases columns.len(),
{
    if columns.len() > 0 {
        let front = columns.drop_last();
        lemma_position(front, name);
        match position(front, name) {
            Some(i) => {
                assert(front[i] == columns[i]);
                assert forall|j: int| 0 <= j < i implies (#[trigger] columns[j]).name != name by {
                    assert(front[j] == columns[j]);
                }
            },
            None => {
                assert forall|j: int| 0 <= j < columns.len() - 1 implies (
                #[trigger] columns[j]).name != name by {
                    assert(front[j] == columns[j]);
                }
            },
        }
    }
}

/// Where a name first occurs is determined.
pub proof fn lemma_position_at<V>(columns: Seq<ColumnView<V>>, name: Seq<char>, i: int)
    requires
        is_position(columns, name, i),
    ensures
        position(columns, name) == Some(i),
{
    lemma_position(columns, name);
    match position(columns, name) {
        Some(j) => {
            if j < i {
                assert(columns[j].name != name);
            }
            if i < j {
                assert(columns[i].name != name);
            }
        },
        None => {
            assert(columns[i].name != name);
        },
    }
}

/// A name that no column bears has no position.
pub proof fn lemma_no_position<V>(columns: Seq<ColumnView<V>>, name: Seq<char>)
    requires
        forall|j: int| 0 <= j < columns.len() ==> (#[trigger] columns[j]).name != name,
    ensures
        position(columns, name) is None,
{
    lemma_position(columns, name);
    if position(columns, name) is Some {
        let i = position(columns, name)->0;
        assert(columns[i].name == name);
    }
}

impl<V: Copy> ColumnData<V> {
    /// A numeric column in which no observation is missing.
    pub fn numbers(values: Vec<V>) -> (data: Self)
        ensures
            data@ == Cells::Num(values@.map_values(|v: V| Some(v))),
    {
        let mut cells: Vec<Option<V>> = Vec::new();
        let mut i: usize = 0;
        while i < values.len()
            invariant
                i <= values@.len(),
                cells@ == values@.take(i as int).map_values(|v: V| Some(v)),
            decreases values@.len() - i,
        {
            cells.push(Some(values[i]));
            assert(values@.take(i + 1) =~= values@.take(i as int).push(values@[i as int]));
            assert(cells@ =~= values@.take(i + 1).map_values(|v: V| Some(v)));
            i += 1;
        }
        assert(values@.take(i as int) =~= values@);
        ColumnData::Num(cells)
    }

    /// Number of cells.
    pub fn len(&self) -> (n: usize)
        ensures
            n == self@.len(),
    {
        match self {
            ColumnData::Int(v) => v.len(),
            ColumnData::Text(v) => v.len(),
            ColumnData::Num(v) => v.len(),
        }
    }

    /// The cells at the given rows, in the order the rows are listed.
    pub(crate) fn take_rows(&self, rows: &Vec<usize>) -> (taken: Self)
        requires
            rows_within(row_numbers(rows@), self@.len()),
        ensures
            taken@ == self@.take_rows(row_numbers(rows@)),
    {
        let ghost wanted = row_numbers(rows@);
        match self {
            ColumnData::Int(v) => {
                let mut out: Vec<i64> = Vec::new();
                let mut k: usize = 0;
                while k < rows.len()
                    invariant
                        k <= rows@.len(),
                        wanted == row_numbers(rows@),
                        rows_within(wanted, v@.len()),
                        out@ == wanted.take(k as int).map_values(|r: int| v@[r]),
                    decreases rows@.len() - k,
                {
                    assert(0 <= wanted[k as int] < v@.len());
                    out.push(v[rows[k]]);
                    assert(out@ =~= wanted.take(k + 1).map_values(|r: int| v@[r]));
                    k += 1;
                }
                assert(wanted.take(k as int) =~= wanted);
                ColumnData::Int(out)
            },
            ColumnData::Text(v) => {
                let mut out: Vec<String> = Vec::new();
                let mut k: usize = 0;
                while k < rows.len()
                    invariant
                        k <= rows@.len(),
                        wanted == row_numbers(rows@),
                        rows_within(wanted, v@.len()),
                        texts(out@) == wanted.take(k as int).map_values(|r: int| texts(v@)[r]),
                    decreases rows@.len() - k,
                {
                    assert(0 <= wanted[k as int] < v@.len());
                    let ghost before = out@;
                    let cell = v[rows[k]].clone();
                    out.push(cell);
                    assert(texts(out@) =~= texts(before).push(cell@));
                    assert(texts(out@) =~= wanted.take(k + 1).map_values(|r: int| texts(v@)[r]));
                    k += 1;
                }
                assert(wanted.take(k as int) =~= wanted);
                ColumnData::Text(out)
            },
            ColumnData::Num(v) => {
                let mut out: Vec<Option<V>> = Vec::new();
                let mut k: usize = 0;
                while k < rows.len()
                    invariant
                        k <= rows@.len(),
                        wanted == row_numbers(rows@),
                        rows_within(wanted, v@.len()),
                        out@ == wanted.take(k as int).map_values(|r: int| v@[r]),
                    decreases rows@.len() - k,
                {
                    assert(0 <= wanted[k as int] < v@.len());
                    out.push(v[rows[k]]);
                    assert(out@ =~= wanted.take(k + 1).map_values(|r: int| v@[r]));
                    k += 1;
                }
                assert(wanted.take(k as int) =~= wanted);
                ColumnData::Num(out)
            },
        }
    }

    /// The cells as keys to order rows by; `None` for a column of
    /// observations, which the library cannot order.
    pub fn keys(&self) -> (keys: Option<Keys<'_>>)
        ensures
            match keys_of(self@) {
                Some(expected) => keys matches Some(found) && found@ == expected,
                None => keys is None,
            },
    {
        match self {
            ColumnData::Int(cells) => Some(Keys::Int(cells)),
            ColumnData::Text(cells) => Some(Keys::Text(cells)),
            ColumnData::Num(_) => None,
        }
    }

    /// The observations of a numeric column with the missing ones dropped;
    /// `None` for a column that is not numeric.
    pub fn numeric_values(&self) -> (values: Option<Vec<V>>)
        ensures
            match self@ {
                Cells::Num(cells) => values matches Some(v) && v@ == present(cells),
                _ => values is None,
            },
    {
        match self {
            ColumnData::Num(cells) => {
                let mut out: Vec<V> = Vec::new();
                let mut i: usize = 0;
                while i < cells.len()
                    invariant
                        i <= cells@.len(),
                        out@ == present(cells@.take(i as int)),
                    decreases cells@.len() - i,
                {
                    assert(cells@.take(i + 1).drop_last() =~= cells@.take(i as int));
                    match cells[i] {
                        Some(v) => {
                            out.push(v);
                        },
                        None => {},
                    }
                    i += 1;
                }
                assert(cells@.take(i as int) =~= cells@);
                Some(out)
            },
            _ => None,
        }
    }
}

impl<V: Copy> Column<V> {
    /// A column of the given name.
    pub fn new(name: &str, data: ColumnData<V>) -> (column: Self)
        ensures
            column@ == (ColumnView { name: name@, cells: data@ }),
    {
        Column { name: name.to_owned(), data }
    }

    /// Number of cells.
    pub fn len(&self) -> (n: usize)
        ensures
            n == self@.cells.len(),
    {
        self.data.len()
    }
}

/// A table: columns of equal length, looked up by name. Where a name occurs
/// more than once, the first column of that name answers for it.
#[derive(Debug, PartialEq)]
pub struct Table<V> {
    columns: Vec<Column<V>>,
}

impl<V> View for Table<V> {
    type V = Seq<ColumnView<V>>;

    closed spec fn view(&self) -> Seq<ColumnView<V>> {
        columns_view(self.columns@)
    }
}

impl<V> Table<V> {
    #[verifier::type_invariant]
    spec fn well_formed(&self) -> bool {
        uniform(self@)
    }
}

impl<V: Copy> Table<V> {
    /// Builds a table from named columns; `None` where two columns differ in
    /// length.
    pub fn new(columns: Vec<Column<V>>) -> (table: Option<Self>)
        ensures
            uniform(columns_view(columns@)) ==> (table matches Some(t) && t@ == columns_view(
                columns@,
            )),
            !uniform(columns_view(columns@)) ==> table is None,
    {
        let ghost view = columns_view(columns@);
        if columns.len() > 0 {
            let height = columns[0].len();
            let mut i: usize = 1;
            while i < columns.len()
                invariant
                    1 <= i <= columns@.len(),
                    view == columns_view(columns@),
                    height == view[0].cells.len(),
                    forall|j: int| 0 <= j < i ==> (#[trigger] view[j]).cells.len() == height,
                decreases columns@.len() - i,
            {
                if columns[i].len() != height {
                    assert(view[i as int].cells.len() != view[0].cells.len());
                    return None;
                }
                i += 1;
            }
        }
        Some(Table { columns })
    }

    /// Builds a table from columns known to be of equal length.
    pub(crate) fn from_columns(columns: Vec<Column<V>>) -> (table: Self)
        requires
            uniform(columns_view(columns@)),
        ensures
            table@ == columns_view(columns@),
    {
        Table { columns }
    }

    /// The columns, in order.
    pub fn columns(&self) -> (columns: &Vec<Column<V>>)
        ensures
            columns_view(columns@) == self@,
            uniform(self@),
    {
        proof {
            use_type_invariant(self);
        }
        &self.columns
    }

    /// Number of columns.
    pub fn width(&self) -> (n: usize)
        ensures
            n == self@.len(),
    {
        self.columns.len()
    }

    /// Number of rows.
    pub fn height(&self) -> (n: usize)
        ensures
            n == height_of(self@),
            uniform(self@),
    {
        proof {
            use_type_invariant(self);
        }
        if self.columns.len() == 0 {
            0
        } else {
            self.columns[0].len()
        }
    }

    /// The column names, in order.
    pub fn get_column_names(&self) -> (names: Vec<String>)
        ensures
            texts(names@) == names_of(self@),
    {
        let mut names: Vec<String> = Vec::new();
        let mut i: usize = 0;
        while i < self.columns.len()
            invariant
                i <= self.columns@.len(),
                texts(names@) == names_of(self@).take(i as int),
            decreases self.columns@.len() - i,
        {
            let ghost before = names@;
            let name = self.columns[i].name.clone();
            names.push(name);
            assert(texts(names@) =~= texts(before).push(name@));
            assert(texts(names@) =~= names_of(self@).take(i + 1));
            i += 1;
        }
        assert(names_of(self@).take(i as int) =~= names_of(self@));
        names
    }

    /// Whether a column bears the given name.
    pub fn has_column(&self, name: &str) -> (found: bool)
        ensures
            found == names_of(self@).contains(name@),
    {
        let mut i: usize = 0;
        while i < self.columns.len()
            invariant
                i <= self.columns@.len(),
                forall|j: int| 0 <= j < i ==> (#[trigger] names_of(self@)[j]) != name@,
            decreases self.columns@.len() - i,
        {
            if same_text(self.columns[i].name.as_str(), name) {
                assert(names_of(self@)[i as int] == name@);
                return true;
            }
            i += 1;
        }
        false
    }

    /// The first column of the given name, if there is one.
    pub fn column(&self, name: &str) -> (found: Option<&Column<V>>)
        ensures
            match column_of(self@, name@) {
                Some(c) => found matches Some(col) && col@ == c,
                None => found is None,
            },
    {
        let mut i: usize = 0;
        while i < self.columns.len()
            invariant
                i <= self.columns@.len(),
                forall|j: int| 0 <= j < i ==> (#[trigger] self@[j]).name != name@,
            decreases self.columns@.len() - i,
        {
            if same_text(self.columns[i].name.as_str(), name) {
                proof {
                    lemma_position_at(self@, name@, i as int);
                }
                return Some(&self.columns[i]);
            }
            i += 1;
        }
        proof {
            lemma_no_position(self@, name@);
        }
        None
    }

    /// The table made of the given rows of every column, in the order the
    /// rows are listed.
    pub(crate) fn take_rows(&self, rows: &Vec<usize>) -> (taken: Self)
        requires
            self@.len() > 0 ==> rows_within(row_numbers(rows@), height_of(self@)),
        ensures
            taken@ == take_rows(self@, row_numbers(rows@)),
    {
        proof {
            use_type_invariant(self);
        }
        let ghost wanted = row_numbers(rows@);
        let mut out: Vec<Column<V>> = Vec::new();
        let mut i: usize = 0;
        while i < self.columns.len()
            invariant
                i <= self.columns@.len(),
                uniform(self@),
                wanted == row_numbers(rows@),
                self@.len() > 0 ==> rows_within(wanted, height_of(self@)),
                columns_view(out@) == take_rows(self@, wanted).take(i as int),
            decreases self.columns@.len() - i,
        {
            let ghost before = out@;
            let source = &self.columns[i];
            assert(source@ == self@[i as int]);
            assert(self@[i as int].cells.len() == self@[0].cells.len());
            let column = Column { name: source.name.clone(), data: source.data.take_rows(rows) };
            out.push(column);
            assert(columns_view(out@) =~= columns_view(before).push(column@));
            assert(columns_view(out@) =~= take_rows(self@, wanted).take(i + 1));
            i += 1;
        }
        assert(take_rows(self@, wanted).take(i as int) =~= take_rows(self@, wanted));
        proof {
            lemma_take_rows_uniform(self@, wanted);
        }
        Table { columns: out }
    }
}

impl<V: Copy> Table<V> {
    /// A copy of the table.
    pub fn duplicate(&self) -> (copy: Self)
        ensures
            copy@ == self@,
    {
        let rows = all_rows(self.height());
        proof {
            use_type_invariant(self);
            lemma_take_all_rows(self@);
        }
        self.take_rows(&rows)
    }

    /// A copy of the table without the columns of the given name.
    pub fn without(&self, name: &str) -> (rest: Self)
        ensures
            rest@ == without(self@, name@),
    {
        proof {
            use_type_invariant(self);
        }
        let rows = all_rows(self.height());
        let ghost keep = named_otherwise::<V>(name@);
        let mut out: Vec<Column<V>> = Vec::new();
        let mut i: usize = 0;
        proof {
            reveal(Seq::filter);
        }
        while i < self.columns.len()
            invariant
                i <= self.columns@.len(),
                uniform(self@),
                keep == named_otherwise::<V>(name@),
                row_numbers(rows@) == Seq::new(height_of(self@), |r: int| r),
                columns_view(out@) == self@.take(i as int).filter(keep),
            decreases self.columns@.len() - i,
        {
            let source = &self.columns[i];
            assert(source@ == self@[i as int]);
            assert(self@.take(i + 1).drop_last() =~= self@.take(i as int));
            proof {
                reveal(Seq::filter);
            }
            if !same_text(source.name.as_str(), name) {
                let ghost before = out@;
                assert(self@[i as int].cells.len() == self@[0].cells.len());
                proof {
                    lemma_take_all_cells(source@.cells);
                }
                let column = Column {
                    name: source.name.clone(),
                    data: source.data.take_rows(&rows),
                };
                assert(column@ == source@);
                out.push(column);
                assert(columns_view(out@) =~= columns_view(before).push(column@));
            }
            i += 1;
        }
        assert(self@.take(i as int) =~= self@);
        proof {
            lemma_without_uniform(self@, name@);
        }
        Table { columns: out }
    }
}

/// The rows `0, 1, ..., n - 1`.
fn all_rows(n: usize) -> (rows: Vec<usize>)
    ensures
        row_numbers(rows@) == Seq::new(n as nat, |r: int| r),
{
    let mut rows: Vec<usize> = Vec::new();
    let mut next: usize = 0;
    assert(row_numbers(rows@) =~= Seq::new(0, |r: int| r));
    while next < n
        invariant
            next <= n,
            row_numbers(rows@) == Seq::new(next as nat, |r: int| r),
        decreases n - next,
    {
        let ghost before = rows@;
        rows.push(next);
        assert(row_numbers(rows@) =~= row_numbers(before).push(next as int));
        assert(row_numbers(rows@) =~= Seq::new((next + 1) as nat, |r: int| r));
        next += 1;
    }
    rows
}

/// Taking every row in order gives the same cells.
pub proof fn lemma_take_all_cells<V>(cells: Cells<V>)
    ensures
        cells.take_rows(Seq::new(cells.len(), |r: int| r)) == cells,
{
    let rows = Seq::new(cells.len(), |r: int| r);
    match cells {
        Cells::Int(s) => {
            assert(rows.map_values(|r: int| s[r]) =~= s);
        },
        Cells::Text(s) => {
            assert(rows.map_values(|r: int| s[r]) =~= s);
        },
        Cells::Num(s) => {
            assert(rows.map_values(|r: int| s[r]) =~= s);
        },
    }
}

/// Taking every row in order gives the same table.
pub proof fn lemma_take_all_rows<V>(columns: Seq<ColumnView<V>>)
    requires
        uniform(columns),
    ensures
        take_rows(columns, Seq::new(height_of(columns), |r: int| r)) == columns,
{
    let rows = Seq::new(height_of(columns), |r: int| r);
    assert forall|i: int| 0 <= i < columns.len() implies take_rows(columns, rows)[i]
        == columns[i] by {
        assert(columns[i].cells.len() == columns[0].cells.len());
        lemma_take_all_cells(columns[i].cells);
    }
    assert(take_rows(columns, rows) =~= columns);
}

/// Leaving columns out keeps the others at their length.
pub proof fn lemma_without_uniform<V>(columns: Seq<ColumnView<V>>, name: Seq<char>)
    requires
        uniform(columns),
    ensures
        uniform(without(columns, name)),
        without(columns, name).len() > 0 ==> height_of(without(columns, name)) == height_of(
            columns,
        ),
{
    let keep = named_otherwise::<V>(name);
    let rest = columns.filter(keep);
    assert forall|i: int| 0 <= i < rest.len() implies (#[trigger] rest[i]).cells.len()
        == height_of(columns) by {
        assert(rest.contains(rest[i]));
        columns.lemma_filter_contains_rev(keep, rest[i]);
        assert(columns.contains(rest[i]));
        let k = choose|k: int| 0 <= k < columns.len() && columns[k] == rest[i];
        assert(columns[k].cells.len() == columns[0].cells.len());
    }
}

/// Taking rows leaves every column with as many cells as rows were taken.
pub proof fn lemma_take_rows_uniform<V>(columns: Seq<ColumnView<V>>, rows: Seq<int>)
    ensures
        uniform(take_rows(columns, rows)),
        forall|i: int|
            0 <= i < columns.len() ==> (#[trigger] take_rows(columns, rows)[i]).cells.len()
                == rows.len(),
{
}

} // verus!
