//! The operations on tables that the operators are made of: choosing columns,
//! cutting off rows, counting values and joining two tables.

use vstd::prelude::*;
use crate::sort::{sort_table, sortable, sorted_descending};
use crate::table::{clone_names, contains_name, row_views, Cell, CellView, Row, Table, TableView};
use crate::facts::{
    lemma_counted_well_formed, lemma_joined_well_formed, lemma_ordered_well_formed,
    lemma_selected_well_formed, lemma_taken_well_formed,
};
use crate::text::{str_eq, views};

verus! {

/// The test whether a name is one of `names`.
pub open spec fn is_among(names: Seq<Seq<char>>) -> spec_fn(Seq<char>) -> bool {
    |name: Seq<char>| names.contains(name)
}

/// The test whether a name is another one than `name`.
pub open spec fn is_not(name: Seq<char>) -> spec_fn(Seq<char>) -> bool {
    |other: Seq<char>| other != name
}

/// The first of `names` that is no column of `header`, if there is one.
pub open spec fn first_missing(header: Seq<Seq<char>>, names: Seq<Seq<char>>) -> Option<
    Seq<char>,
>
    decreases names.len(),
{
    if names.len() == 0 {
        None
    } else if !header.contains(names[0]) {
        Some(names[0])
    } else {
        first_missing(header, names.drop_first())
    }
}

/// For each of `names`, the index of the first column of `header` that has
/// this name.
pub open spec fn column_indices(header: Seq<Seq<char>>, names: Seq<Seq<char>>) -> Seq<int> {
    Seq::new(names.len(), |k: int| header.index_of_first(names[k]).unwrap())
}

/// The cells of `row` at `indices`, in the order of `indices`.
pub open spec fn picked(row: Seq<CellView>, indices: Seq<int>) -> Seq<CellView> {
    Seq::new(indices.len(), |k: int| row[indices[k]])
}

impl TableView {
    /// The table cut down to the columns `names`, in that order. A column
    /// stays numeric if it was.
    pub open spec fn selected(self, names: Seq<Seq<char>>) -> TableView {
        TableView {
            header: names,
            numeric_columns: names.filter(is_among(self.numeric_columns)),
            rows: self.rows.map_values(
                |row: Seq<CellView>| picked(row, column_indices(self.header, names)),
            ),
        }
    }

    /// The table cut down to its first `count` rows; all of them if it has
    /// fewer.
    pub open spec fn taken(self, count: nat) -> TableView {
        TableView {
            header: self.header,
            numeric_columns: self.numeric_columns,
            rows: if count < self.rows.len() {
                self.rows.take(count as int)
            } else {
                self.rows
            },
        }
    }

    /// The table with its rows ordered by the integer at `index`, largest
    /// first.
    pub open spec fn ordered(self, index: int) -> TableView {
        TableView {
            header: self.header,
            numeric_columns: self.numeric_columns,
            rows: sorted_descending(self.rows, index),
        }
    }
}

/// What one more element adds to a filtered prefix.
pub proof fn lemma_filter_next<A>(s: Seq<A>, pred: spec_fn(A) -> bool, i: int)
    requires
        0 <= i < s.len(),
    ensures
        s.take(i + 1).filter(pred) == if pred(s[i]) {
            s.take(i).filter(pred).push(s[i])
        } else {
            s.take(i).filter(pred)
        },
{
    reveal(Seq::filter);
    assert(s.take(i + 1).drop_last() =~= s.take(i));
}

/// When every name before `at` is a column and the one at `at` is not, that
/// one is the first missing; when all are columns, none is missing.
pub proof fn lemma_first_missing(header: Seq<Seq<char>>, names: Seq<Seq<char>>, at: int)
    requires
        0 <= at <= names.len(),
        forall|k: int| 0 <= k < at ==> header.contains(#[trigger] names[k]),
        at < names.len() ==> !header.contains(names[at]),
    ensures
        first_missing(header, names) == if at < names.len() {
            Some(names[at])
        } else {
            None
        },
    decreases names.len(),
{
    if names.len() == 0 {
    } else if at == 0 {
    } else {
        assert(header.contains(names[0]));
        let rest = names.drop_first();
        assert forall|k: int| 0 <= k < at - 1 implies header.contains(#[trigger] rest[k]) by {
            assert(rest[k] == names[k + 1]);
        }
        lemma_first_missing(header, rest, at - 1);
    }
}

/// The names of `names` that are among `numeric`, in the order of `names`.
pub fn numeric_among(names: &Vec<String>, numeric: &Vec<String>) -> (r: Vec<String>)
    ensures
        views(r@) == views(names@).filter(is_among(views(numeric@))),
{
    let mut out: Vec<String> = Vec::new();
    let mut i: usize = 0;
    proof {
        reveal(Seq::filter);
        assert(views(out@) =~= views(names@).take(0).filter(is_among(views(numeric@))));
    }
    while i < names.len()
        invariant
            i <= names.len(),
            views(out@) == views(names@).take(i as int).filter(is_among(views(numeric@))),
        decreases names.len() - i,
    {
        let ghost before = views(out@);
        proof {
            lemma_filter_next(views(names@), is_among(views(numeric@)), i as int);
        }
        if contains_name(numeric, names[i].as_str()) {
            out.push(names[i].clone());
            assert(views(out@) =~= before.push(names@[i as int]@));
        }
        i = i + 1;
    }
    assert(views(names@).take(i as int) =~= views(names@));
    out
}

/// The cells of `row` at `indices`, in the order of `indices`.
pub fn pick_cells(row: &Row, indices: &Vec<usize>) -> (r: Row)
    requires
        forall|k: int| 0 <= k < indices.len() ==> #[trigger] indices[k] < row@.len(),
    ensures
        r@ == picked(row@, indices@.map_values(|i: usize| i as int)),
{
    let mut cells: Vec<Cell> = Vec::new();
    let mut k: usize = 0;
    while k < indices.len()
        invariant
            k <= indices.len(),
            cells.len() == k,
            forall|j: int| 0 <= j < indices.len() ==> #[trigger] indices[j] < row@.len(),
            forall|j: int| 0 <= j < k ==> cells@[j]@ == row@[indices[j] as int],
        decreases indices.len() - k,
    {
        cells.push(row.cells[indices[k]].clone());
        k = k + 1;
    }
    let r = Row { cells };
    assert(r@ =~= picked(row@, indices@.map_values(|i: usize| i as int)));
    r
}

/// The table cut down to the columns `names`, whose indices the caller has
/// looked up.
pub fn select_columns(table: &Table, names: &Vec<String>, indices: &Vec<usize>) -> (r: Table)
    requires
        table@.well_formed(),
        indices.len() == names.len(),
        forall|k: int|
            0 <= k < names.len() ==> table@.column_index(#[trigger] names@[k]@) == Some(
                indices[k] as int,
            ),
    ensures
        r@ == table@.selected(views(names@)),
        r@.well_formed(),
{
    let ghost wanted = column_indices(table@.header, views(names@));
    proof {
        assert forall|k: int| 0 <= k < names.len() implies table@.header.contains(
            #[trigger] views(names@)[k],
        ) by {
            table@.header.index_of_first_ensures(names@[k]@);
        }
        lemma_first_missing(table@.header, views(names@), names.len() as int);
        lemma_selected_well_formed(table@, views(names@));
        assert(indices@.map_values(|i: usize| i as int) =~= wanted);
        assert forall|k: int| 0 <= k < indices.len() implies 0 <= #[trigger] indices[k]
            < table@.header.len() by {
            table@.header.index_of_first_ensures(names@[k]@);
        }
    }
    let mut rows: Vec<Row> = Vec::new();
    let mut i: usize = 0;
    while i < table.rows.len()
        invariant
            i <= table.rows.len(),
            rows.len() == i,
            table@.well_formed(),
            indices@.map_values(|i: usize| i as int) == wanted,
            forall|k: int|
                0 <= k < indices.len() ==> 0 <= #[trigger] indices[k] < table@.header.len(),
            forall|j: int| 0 <= j < i ==> rows@[j]@ == picked(table.rows@[j]@, wanted),
        decreases table.rows.len() - i,
    {
        assert(table@.rows[i as int] == table.rows@[i as int]@);
        rows.push(pick_cells(&table.rows[i], indices));
        i = i + 1;
    }
    let r = Table {
        header: clone_names(names),
        numeric_columns: numeric_among(names, &table.numeric_columns),
        rows,
    };
    assert(r@.rows =~= table@.selected(views(names@)).rows);
    r
}

/// The table cut down to its first `count` rows; all of them if it has
/// fewer.
pub fn take_rows(table: Table, count: usize) -> (r: Table)
    ensures
        r@ == table@.taken(count as nat),
        table@.well_formed() ==> r@.well_formed(),
{
    let mut table = table;
    let ghost before = table@;
    proof {
        if before.well_formed() {
            lemma_taken_well_formed(before, count as nat);
        }
    }
    table.rows.truncate(count);
    assert(table@.rows =~= before.taken(count as nat).rows);
    table
}

/// The table with its rows ordered by the integer at `index`, largest first.
pub fn order_rows(table: Table, index: usize) -> (r: Table)
    requires
        sortable(table@.rows, index as int),
    ensures
        r@ == table@.ordered(index as int),
        table@.well_formed() ==> r@.well_formed(),
{
    let mut table = table;
    proof {
        if table@.well_formed() {
            lemma_ordered_well_formed(table@, index as int);
        }
    }
    sort_table(&mut table.rows, index);
    table
}

/// The values found at `column`, each once, in the order in which they first
/// appear.
pub open spec fn distinct_cells(rows: Seq<Seq<CellView>>, column: int) -> Seq<CellView>
    decreases rows.len(),
{
    if rows.len() == 0 {
        Seq::empty()
    } else {
        let before = distinct_cells(rows.drop_last(), column);
        let cell = rows.last()[column];
        if before.contains(cell) {
            before
        } else {
            before.push(cell)
        }
    }
}

/// How many rows hold `cell` at `column`.
pub open spec fn occurrences(rows: Seq<Seq<CellView>>, column: int, cell: CellView) -> nat
    decreases rows.len(),
{
    if rows.len() == 0 {
        0
    } else {
        let before = occurrences(rows.drop_last(), column, cell);
        if rows.last()[column] == cell {
            before + 1
        } else {
            before
        }
    }
}

/// The cell that holds a count. No table of this machine has more rows than
/// an `i64` can count; a larger number would be cut down to `i64::MAX`.
pub open spec fn count_cell(n: nat) -> CellView {
    CellView::Int64(
        if n <= i64::MAX {
            n as i64
        } else {
            i64::MAX
        },
    )
}

/// One row for each distinct value at `column`, in the order of first
/// appearance: the value, then the number of rows that hold it.
pub open spec fn histogram(rows: Seq<Seq<CellView>>, column: int) -> Seq<Seq<CellView>> {
    distinct_cells(rows, column).map_values(
        |cell: CellView| seq![cell, count_cell(occurrences(rows, column, cell))],
    )
}

/// The test whether a row holds `cell` at `index`.
pub open spec fn holds(cell: CellView, index: int) -> spec_fn(Seq<CellView>) -> bool {
    |row: Seq<CellView>| row[index] == cell
}

/// The rows that `left_row` gives in a join: one for each of `right_rows`
/// with an equal cell, made of the left row's cells and then the right
/// row's cells but the one joined on.
pub open spec fn matches_of(
    left_row: Seq<CellView>,
    right_rows: Seq<Seq<CellView>>,
    left_index: int,
    right_index: int,
) -> Seq<Seq<CellView>> {
    right_rows.filter(holds(left_row[left_index], right_index)).map_values(
        |row: Seq<CellView>| left_row + row.remove(right_index),
    )
}

/// The rows of a join: the matches of the first left row, then those of the
/// second, and so on.
pub open spec fn join_rows(
    left_rows: Seq<Seq<CellView>>,
    right_rows: Seq<Seq<CellView>>,
    left_index: int,
    right_index: int,
) -> Seq<Seq<CellView>>
    decreases left_rows.len(),
{
    if left_rows.len() == 0 {
        Seq::empty()
    } else {
        join_rows(left_rows.drop_last(), right_rows, left_index, right_index) + matches_of(
            left_rows.last(),
            right_rows,
            left_index,
            right_index,
        )
    }
}

impl TableView {
    /// The histogram of the column `name`, found at `index`: the distinct
    /// values with their counts, the largest count first, values with the
    /// same count in the order of their first appearance.
    pub open spec fn counted(self, name: Seq<char>, index: int) -> TableView {
        TableView {
            header: seq![name, "count"@],
            numeric_columns: if self.numeric_columns.contains(name) {
                seq![name, "count"@]
            } else {
                seq!["count"@]
            },
            rows: sorted_descending(histogram(self.rows, index), 1),
        }
    }

    /// The join with `right` on the column `name`, found at `left_index`
    /// here and at `right_index` there.
    pub open spec fn joined_with(
        self,
        right: TableView,
        name: Seq<char>,
        left_index: int,
        right_index: int,
    ) -> TableView {
        TableView {
            header: self.header + right.header.filter(is_not(name)),
            numeric_columns: self.numeric_columns + right.numeric_columns.filter(is_not(name)),
            rows: join_rows(self.rows, right.rows, left_index, right_index),
        }
    }
}

/// A value is counted at least once exactly if it is among the distinct
/// values; no count exceeds the number of rows.
pub proof fn lemma_occurrences(rows: Seq<Seq<CellView>>, column: int, cell: CellView)
    ensures
        occurrences(rows, column, cell) <= rows.len(),
        distinct_cells(rows, column).contains(cell) <==> occurrences(rows, column, cell) > 0,
    decreases rows.len(),
{
    if rows.len() > 0 {
        lemma_occurrences(rows.drop_last(), column, cell);
        let before = distinct_cells(rows.drop_last(), column);
        let last = rows.last()[column];
        if before.contains(last) {
        } else {
            let after = before.push(last);
            assert(after[after.len() - 1] == last);
            if before.contains(cell) {
                let k = choose|k: int| 0 <= k < before.len() && before[k] == cell;
                assert(after[k] == cell);
            }
        }
    }
}

/// No value occurs twice among the distinct values.
pub proof fn lemma_distinct_cells(rows: Seq<Seq<CellView>>, column: int)
    ensures
        distinct_cells(rows, column).no_duplicates(),
    decreases rows.len(),
{
    if rows.len() > 0 {
        lemma_distinct_cells(rows.drop_last(), column);
    }
}

/// The histogram of the column `name` of `table`, found at `index`.
pub fn count_rows(table: &Table, name: &str, index: usize) -> (r: Table)
    requires
        table@.well_formed(),
        index < table@.header.len(),
    ensures
        r@ == table@.counted(name@, index as int),
        r@.well_formed(),
{
    proof {
        lemma_counted_well_formed(table@, name@, index as int);
    }
    let ghost all = table@.rows;
    let ghost column = index as int;
    let mut values: Vec<Cell> = Vec::new();
    let mut counts: Vec<usize> = Vec::new();
    let mut i: usize = 0;
    assert(values@.map_values(|c: Cell| c@) =~= distinct_cells(all.take(0), column));
    while i < table.rows.len()
        invariant
            i <= table.rows.len(),
            all == table@.rows,
            column == index as int,
            table@.well_formed(),
            index < table@.header.len(),
            values.len() == counts.len(),
            values@.map_values(|c: Cell| c@) == distinct_cells(all.take(i as int), column),
            forall|j: int|
                0 <= j < counts.len() ==> #[trigger] counts[j] == occurrences(
                    all.take(i as int),
                    column,
                    values@[j]@,
                ),
        decreases table.rows.len() - i,
    {
        let ghost before = all.take(i as int);
        let ghost seen = distinct_cells(before, column);
        assert(all[i as int] == table.rows@[i as int]@);
        let cell = &table.rows[i].cells[index];
        proof {
            assert(all.take(i + 1).drop_last() =~= before);
            assert(all.take(i + 1).last() == all[i as int]);
            lemma_distinct_cells(before, column);
            lemma_occurrences(before, column, cell@);
            assert forall|j: int| 0 <= j < counts.len() implies counts[j] <= i by {
                lemma_occurrences(before, column, values@[j]@);
            }
        }
        let mut at: usize = 0;
        while at < values.len() && values[at] != *cell
            invariant
                at <= values.len(),
                forall|j: int| 0 <= j < at ==> values@[j]@ != cell@,
            decreases values.len() - at,
        {
            at = at + 1;
        }
        if at < values.len() {
            proof {
                assert(seen[at as int] == values@[at as int]@);
                assert forall|j: int| 0 <= j < values.len() && j != at implies values@[j]@
                    != cell@ by {
                    assert(seen[j] == values@[j]@);
                }
            }
            let n = counts[at];
            counts.set(at, n + 1);
        } else {
            proof {
                assert forall|j: int| 0 <= j < seen.len() implies seen[j] != cell@ by {
                    assert(seen[j] == values@[j]@);
                }
                assert(!seen.contains(cell@));
            }
            values.push(cell.clone());
            counts.push(1);
            assert(values@.map_values(|c: Cell| c@) =~= seen.push(cell@));
        }
        i = i + 1;
    }
    assert(all.take(i as int) =~= all);
    let mut rows: Vec<Row> = Vec::new();
    let mut k: usize = 0;
    while k < values.len()
        invariant
            k <= values.len(),
            values.len() == counts.len(),
            rows.len() == k,
            values@.map_values(|c: Cell| c@) == distinct_cells(all, column),
            forall|j: int|
                0 <= j < counts.len() ==> #[trigger] counts[j] == occurrences(
                    all,
                    column,
                    values@[j]@,
                ),
            forall|j: int| 0 <= j < k ==> rows@[j]@ == histogram(all, column)[j],
        decreases values.len() - k,
    {
        let n: u64 = counts[k] as u64;
        let count: i64 = if n <= 9223372036854775807u64 {
            n as i64
        } else {
            i64::MAX
        };
        let row = Row { cells: vec![values[k].clone(), Cell::Int64(count)] };
        proof {
            assert(distinct_cells(all, column)[k as int] == values@[k as int]@);
            assert(row@ =~= histogram(all, column)[k as int]);
        }
        rows.push(row);
        k = k + 1;
    }
    assert(row_views(rows@) =~= histogram(all, column));
    sort_table(&mut rows, 1);
    let numeric_columns = if contains_name(&table.numeric_columns, name) {
        vec![name.to_owned(), "count".to_owned()]
    } else {
        vec!["count".to_owned()]
    };
    let r = Table { header: vec![name.to_owned(), "count".to_owned()], numeric_columns, rows };
    proof {
        assert(r@.header =~= table@.counted(name@, index as int).header);
        assert(r@.numeric_columns =~= table@.counted(name@, index as int).numeric_columns);
    }
    r
}

/// Appends to `out` the names of `names` that are not `name`.
pub fn extend_without(out: &mut Vec<String>, names: &Vec<String>, name: &str)
    ensures
        views(final(out)@) == views(old(out)@) + views(names@).filter(is_not(name@)),
{
    let ghost start = views(out@);
    let mut i: usize = 0;
    proof {
        reveal(Seq::filter);
        assert(views(out@) =~= start + views(names@).take(0).filter(is_not(name@)));
    }
    while i < names.len()
        invariant
            i <= names.len(),
            views(out@) == start + views(names@).take(i as int).filter(is_not(name@)),
        decreases names.len() - i,
    {
        let ghost before = views(out@);
        proof {
            lemma_filter_next(views(names@), is_not(name@), i as int);
        }
        if !str_eq(names[i].as_str(), name) {
            out.push(names[i].clone());
            assert(views(out@) =~= before.push(names@[i as int]@));
            assert(views(out@) =~= start + views(names@).take(i + 1).filter(is_not(name@)));
        }
        i = i + 1;
    }
    assert(views(names@).take(i as int) =~= views(names@));
}

/// The cells of `left`, then those of `right` but the one at `right_index`.
pub fn join_cells(left: &Row, right: &Row, right_index: usize) -> (r: Row)
    requires
        right_index < right@.len(),
    ensures
        r@ == left@ + right@.remove(right_index as int),
{
    let mut cells: Vec<Cell> = Vec::new();
    let mut i: usize = 0;
    while i < left.cells.len()
        invariant
            i <= left.cells.len(),
            cells.len() == i,
            forall|j: int| 0 <= j < i ==> cells@[j]@ == left@[j],
        decreases left.cells.len() - i,
    {
        cells.push(left.cells[i].clone());
        i = i + 1;
    }
    let mut k: usize = 0;
    while k < right.cells.len()
        invariant
            k <= right.cells.len(),
            right_index < right.cells.len(),
            cells.len() == left.cells.len() + k - (if k > right_index { 1int } else { 0int }),
            forall|j: int| 0 <= j < left.cells.len() ==> cells@[j]@ == left@[j],
            forall|j: int|
                0 <= j < k && j < right_index ==> cells@[left.cells.len() + j]@ == right@[j],
            forall|j: int|
                right_index < j < k ==> cells@[left.cells.len() + j - 1]@ == right@[j],
        decreases right.cells.len() - k,
    {
        if k != right_index {
            cells.push(right.cells[k].clone());
        }
        k = k + 1;
    }
    let r = Row { cells };
    assert(r@ =~= left@ + right@.remove(right_index as int));
    r
}

/// The join of `left` and `right` on the column `name`, found at
/// `left_index` in the one and at `right_index` in the other.
pub fn join_tables(
    left: &Table,
    right: &Table,
    name: &str,
    left_index: usize,
    right_index: usize,
) -> (r: Table)
    requires
        left@.well_formed(),
        right@.well_formed(),
        left_index < left@.header.len(),
        right_index < right@.header.len(),
    ensures
        r@ == left@.joined_with(right@, name@, left_index as int, right_index as int),
        right@.header.no_duplicates() && right@.header[right_index as int] == name@
            ==> r@.well_formed(),
{
    proof {
        if right@.header.no_duplicates() && right@.header[right_index as int] == name@ {
            lemma_joined_well_formed(
                left@,
                right@,
                name@,
                left_index as int,
                right_index as int,
            );
        }
    }
    let mut header = clone_names(&left.header);
    extend_without(&mut header, &right.header, name);
    let mut numeric_columns = clone_names(&left.numeric_columns);
    extend_without(&mut numeric_columns, &right.numeric_columns, name);
    let ghost li = left_index as int;
    let ghost ri = right_index as int;
    let mut rows: Vec<Row> = Vec::new();
    let mut i: usize = 0;
    assert(row_views(rows@) =~= join_rows(left@.rows.take(0), right@.rows, li, ri));
    while i < left.rows.len()
        invariant
            i <= left.rows.len(),
            li == left_index as int,
            ri == right_index as int,
            left@.well_formed(),
            right@.well_formed(),
            left_index < left@.header.len(),
            right_index < right@.header.len(),
            row_views(rows@) == join_rows(left@.rows.take(i as int), right@.rows, li, ri),
        decreases left.rows.len() - i,
    {
        let left_row = &left.rows[i];
        let ghost done = row_views(rows@);
        let ghost wanted = holds(left_row@[li], ri);
        assert(left@.rows[i as int] == left_row@);
        let mut j: usize = 0;
        proof {
            reveal(Seq::filter);
            assert(right@.rows.take(0).filter(wanted) =~= Seq::<Seq<CellView>>::empty());
            assert(row_views(rows@) =~= done + matches_of(left_row@, right@.rows.take(0), li, ri));
        }
        while j < right.rows.len()
            invariant
                j <= right.rows.len(),
                li == left_index as int,
                ri == right_index as int,
                right@.well_formed(),
                left_index < left_row@.len(),
                right_index < right@.header.len(),
                wanted == holds(left_row@[li], ri),
                row_views(rows@) == done + matches_of(
                    left_row@,
                    right@.rows.take(j as int),
                    li,
                    ri,
                ),
            decreases right.rows.len() - j,
        {
            let right_row = &right.rows[j];
            let ghost so_far = row_views(rows@);
            assert(right@.rows[j as int] == right_row@);
            proof {
                lemma_filter_next(right@.rows, wanted, j as int);
            }
            if left_row.cells[left_index] == right_row.cells[right_index] {
                rows.push(join_cells(left_row, right_row, right_index));
                assert(row_views(rows@) =~= so_far.push(left_row@ + right_row@.remove(ri)));
                assert(row_views(rows@) =~= done + matches_of(
                    left_row@,
                    right@.rows.take(j + 1),
                    li,
                    ri,
                ));
            }
            j = j + 1;
        }
        proof {
            assert(right@.rows.take(j as int) =~= right@.rows);
            assert(left@.rows.take(i + 1).drop_last() =~= left@.rows.take(i as int));
            assert(left@.rows.take(i + 1).last() == left_row@);
        }
        i = i + 1;
    }
    assert(left@.rows.take(i as int) =~= left@.rows);
    Table { header, numeric_columns, rows }
}

} // verus!
