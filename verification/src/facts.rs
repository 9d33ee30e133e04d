//! Facts about the operations on tables: what their results hold, and that
//! they are well formed.

use vstd::prelude::*;
use crate::relation::{
    distinct_cells, first_missing, histogram, holds, is_among, is_not, join_rows, matches_of,
};
use crate::sort::lemma_sorted_members;
use crate::table::{CellView, TableView};

verus! {

/// An element is in a filtered sequence exactly if it is in the sequence and
/// passes the test.
pub proof fn lemma_filter_contains<A>(s: Seq<A>, pred: spec_fn(A) -> bool, x: A)
    ensures
        s.filter(pred).contains(x) <==> s.contains(x) && pred(x),
    decreases s.len(),
{
    reveal(Seq::filter);
    if s.len() > 0 {
        let rest = s.drop_last();
        lemma_filter_contains(rest, pred, x);
        let kept = rest.filter(pred);
        if s.contains(x) {
            let i = choose|i: int| 0 <= i < s.len() && s[i] == x;
            if i < s.len() - 1 {
                assert(rest[i] == x);
            }
        }
        if rest.contains(x) {
            let i = choose|i: int| 0 <= i < rest.len() && rest[i] == x;
            assert(s[i] == x);
        }
        if pred(s.last()) {
            let all = kept.push(s.last());
            assert(all[all.len() - 1] == s.last());
            if kept.contains(x) {
                let i = choose|i: int| 0 <= i < kept.len() && kept[i] == x;
                assert(all[i] == x);
            }
            if all.contains(x) {
                let i = choose|i: int| 0 <= i < all.len() && all[i] == x;
                if i < kept.len() {
                    assert(kept[i] == x);
                }
            }
        }
        assert(s[s.len() - 1] == s.last());
    }
}

/// In a sequence without duplicates, leaving out the value at `at` is
/// removing the element at `at`.
pub proof fn lemma_filter_is_remove(s: Seq<Seq<char>>, at: int)
    requires
        0 <= at < s.len(),
        s.no_duplicates(),
    ensures
        s.filter(is_not(s[at])) == s.remove(at),
    decreases s.len(),
{
    reveal(Seq::filter);
    let name = s[at];
    let rest = s.drop_last();
    if at == s.len() - 1 {
        lemma_filter_keeps_all(rest, name);
        assert(s.remove(at) =~= rest);
    } else {
        lemma_filter_is_remove(rest, at);
        assert(s.last() != name);
        assert(s.remove(at) =~= rest.remove(at).push(s.last()));
    }
}

/// Leaving out a value that does not occur changes nothing.
pub proof fn lemma_filter_keeps_all(s: Seq<Seq<char>>, name: Seq<char>)
    requires
        forall|i: int| 0 <= i < s.len() ==> s[i] != name,
    ensures
        s.filter(is_not(name)) == s,
    decreases s.len(),
{
    reveal(Seq::filter);
    if s.len() > 0 {
        lemma_filter_keeps_all(s.drop_last(), name);
        assert(s.drop_last().push(s.last()) =~= s);
    }
}

/// Every distinct value at `column` is the cell of some row.
pub proof fn lemma_distinct_members(rows: Seq<Seq<CellView>>, column: int)
    ensures
        forall|k: int|
            0 <= k < distinct_cells(rows, column).len() ==> exists|r: int|
                0 <= r < rows.len() && rows[r][column] == #[trigger] distinct_cells(
                    rows,
                    column,
                )[k],
    decreases rows.len(),
{
    if rows.len() > 0 {
        let rest = rows.drop_last();
        lemma_distinct_members(rest, column);
        let before = distinct_cells(rest, column);
        let after = distinct_cells(rows, column);
        assert forall|k: int| 0 <= k < after.len() implies exists|r: int|
            0 <= r < rows.len() && rows[r][column] == #[trigger] after[k] by {
            if k < before.len() {
                assert(after[k] == before[k]);
                let r = choose|r: int| 0 <= r < rest.len() && rest[r][column] == before[k];
                assert(rows[r][column] == after[k]);
            } else {
                assert(rows[rows.len() - 1][column] == after[k]);
            }
        }
    }
}

/// Whether `row` is one of `left_rows` followed by one of `right_rows`
/// without its cell at `right_index`.
pub open spec fn is_joined_row(
    row: Seq<CellView>,
    left_rows: Seq<Seq<CellView>>,
    right_rows: Seq<Seq<CellView>>,
    right_index: int,
) -> bool {
    exists|a: int, b: int|
        #![trigger left_rows[a], right_rows[b]]
        0 <= a < left_rows.len() && 0 <= b < right_rows.len() && row == left_rows[a]
            + right_rows[b].remove(right_index)
}

/// Every row of a join is a left row followed by a right row without its
/// cell at `right_index`.
pub proof fn lemma_join_members(
    left_rows: Seq<Seq<CellView>>,
    right_rows: Seq<Seq<CellView>>,
    left_index: int,
    right_index: int,
)
    ensures
        forall|k: int|
            0 <= k < join_rows(left_rows, right_rows, left_index, right_index).len()
                ==> is_joined_row(
                #[trigger] join_rows(left_rows, right_rows, left_index, right_index)[k],
                left_rows,
                right_rows,
                right_index,
            ),
    decreases left_rows.len(),
{
    if left_rows.len() > 0 {
        let rest = left_rows.drop_last();
        let last = left_rows.last();
        lemma_join_members(rest, right_rows, left_index, right_index);
        let before = join_rows(rest, right_rows, left_index, right_index);
        let wanted = holds(last[left_index], right_index);
        let found = right_rows.filter(wanted);
        let added = matches_of(last, right_rows, left_index, right_index);
        let all = join_rows(left_rows, right_rows, left_index, right_index);
        assert forall|k: int| 0 <= k < all.len() implies is_joined_row(
            #[trigger] all[k],
            left_rows,
            right_rows,
            right_index,
        ) by {
            if k < before.len() {
                assert(all[k] == before[k]);
                assert(is_joined_row(before[k], rest, right_rows, right_index));
                let (a, b) = choose|a: int, b: int|
                    #![trigger rest[a], right_rows[b]]
                    0 <= a < rest.len() && 0 <= b < right_rows.len() && before[k] == rest[a]
                        + right_rows[b].remove(right_index);
                assert(left_rows[a] == rest[a]);
                assert(all[k] == left_rows[a] + right_rows[b].remove(right_index));
            } else {
                let m = k - before.len();
                assert(all[k] == added[m]);
                assert(found.contains(found[m]));
                lemma_filter_contains(right_rows, wanted, found[m]);
                let b = choose|b: int| 0 <= b < right_rows.len() && right_rows[b] == found[m];
                let a = left_rows.len() - 1;
                assert(all[k] == left_rows[a] + right_rows[b].remove(right_index));
            }
        }
    }
}

/// The first missing name is one of the names and no column; there is one
/// exactly if not all names are columns.
pub proof fn lemma_missing(header: Seq<Seq<char>>, names: Seq<Seq<char>>)
    ensures
        first_missing(header, names) is None <==> forall|k: int|
            0 <= k < names.len() ==> header.contains(#[trigger] names[k]),
        first_missing(header, names) matches Some(name) ==> !header.contains(name)
            && names.contains(name),
    decreases names.len(),
{
    if names.len() > 0 {
        let rest = names.drop_first();
        lemma_missing(header, rest);
        if header.contains(names[0]) {
            if first_missing(header, names) is None {
                assert forall|k: int| 0 <= k < names.len() implies header.contains(
                    #[trigger] names[k],
                ) by {
                    if k > 0 {
                        assert(rest[k - 1] == names[k]);
                    }
                }
            } else {
                let name = first_missing(header, rest)->0;
                let k = choose|k: int| 0 <= k < rest.len() && rest[k] == name;
                assert(names[k + 1] == name);
                assert(!header.contains(names[k + 1]));
            }
        } else {
            assert(names.contains(names[0]));
        }
    }
}

/// The value of every row is among the distinct values.
pub proof fn lemma_distinct_covers(rows: Seq<Seq<CellView>>, column: int)
    ensures
        forall|r: int|
            0 <= r < rows.len() ==> distinct_cells(rows, column).contains(
                #[trigger] rows[r][column],
            ),
    decreases rows.len(),
{
    if rows.len() > 0 {
        let rest = rows.drop_last();
        let before = distinct_cells(rest, column);
        let values = distinct_cells(rows, column);
        lemma_distinct_covers(rest, column);
        assert forall|r: int| 0 <= r < rows.len() implies values.contains(
            #[trigger] rows[r][column],
        ) by {
            let cell = rows[r][column];
            if r < rest.len() {
                assert(rest[r][column] == cell);
                let k = choose|k: int| 0 <= k < before.len() && before[k] == cell;
                assert(values[k] == cell);
            } else if before.contains(cell) {
            } else {
                assert(values[values.len() - 1] == cell);
            }
        }
    }
}

/// Choosing columns that are all there gives a well-formed table.
pub proof fn lemma_selected_well_formed(table: TableView, names: Seq<Seq<char>>)
    requires
        first_missing(table.header, names) is None,
    ensures
        table.selected(names).well_formed(),
{
    let out = table.selected(names);
    assert forall|i: int| 0 <= i < out.numeric_columns.len() implies out.header.contains(
        #[trigger] out.numeric_columns[i],
    ) by {
        let name = out.numeric_columns[i];
        assert(out.numeric_columns.contains(name));
        lemma_filter_contains(names, is_among(table.numeric_columns), name);
    }
}

/// The first rows of a well-formed table are a well-formed table.
pub proof fn lemma_taken_well_formed(table: TableView, count: nat)
    requires
        table.well_formed(),
    ensures
        table.taken(count).well_formed(),
{
    let out = table.taken(count);
    assert forall|r: int| 0 <= r < out.rows.len() implies (#[trigger] out.rows[r]).len()
        == out.header.len() by {
        assert(out.rows[r] == table.rows[r]);
    }
}

/// Ordering the rows of a well-formed table gives a well-formed table.
pub proof fn lemma_ordered_well_formed(table: TableView, index: int)
    requires
        table.well_formed(),
    ensures
        table.ordered(index).well_formed(),
{
    let out = table.ordered(index);
    lemma_sorted_members(table.rows, index);
    assert forall|r: int| 0 <= r < out.rows.len() implies (#[trigger] out.rows[r]).len()
        == out.header.len() by {
        assert(table.rows.contains(out.rows[r]));
        let j = choose|j: int| 0 <= j < table.rows.len() && table.rows[j] == out.rows[r];
        assert(table.rows[j].len() == table.header.len());
    }
}

/// A histogram is a well-formed table of two columns.
pub proof fn lemma_counted_well_formed(table: TableView, name: Seq<char>, index: int)
    ensures
        table.counted(name, index).well_formed(),
        table.counted(name, index).header.len() == 2,
{
    let out = table.counted(name, index);
    let groups = histogram(table.rows, index);
    lemma_sorted_members(groups, 1);
    assert(out.header[0] == name && out.header[1] == "count"@);
    assert forall|r: int| 0 <= r < out.rows.len() implies (#[trigger] out.rows[r]).len()
        == 2 by {
        assert(groups.contains(out.rows[r]));
    }
    if table.numeric_columns.contains(name) {
        assert(out.numeric_columns[0] == name && out.numeric_columns[1] == "count"@);
    } else {
        assert(out.numeric_columns[0] == "count"@);
    }
}

/// The join of a well-formed table with a well-formed table whose columns
/// have different names is a well-formed table.
pub proof fn lemma_joined_well_formed(
    left: TableView,
    right: TableView,
    name: Seq<char>,
    left_index: int,
    right_index: int,
)
    requires
        left.well_formed(),
        right.well_formed(),
        right.header.no_duplicates(),
        0 <= right_index < right.header.len(),
        right.header[right_index] == name,
    ensures
        left.joined_with(right, name, left_index, right_index).well_formed(),
        left.joined_with(right, name, left_index, right_index).header == left.header
            + right.header.remove(right_index),
{
    let out = left.joined_with(right, name, left_index, right_index);
    let kept = right.header.filter(is_not(name));
    let kept_numeric = right.numeric_columns.filter(is_not(name));
    let width = left.header.len();
    lemma_filter_is_remove(right.header, right_index);
    lemma_join_members(left.rows, right.rows, left_index, right_index);
    assert forall|r: int| 0 <= r < out.rows.len() implies (#[trigger] out.rows[r]).len()
        == out.header.len() by {
        assert(is_joined_row(out.rows[r], left.rows, right.rows, right_index));
        let (a, b) = choose|a: int, b: int|
            #![trigger left.rows[a], right.rows[b]]
            0 <= a < left.rows.len() && 0 <= b < right.rows.len() && out.rows[r] == left.rows[a]
                + right.rows[b].remove(right_index);
        assert(left.rows[a].len() == width);
        assert(right.rows[b].len() == right.header.len());
    }
    assert forall|i: int| 0 <= i < out.numeric_columns.len() implies out.header.contains(
        #[trigger] out.numeric_columns[i],
    ) by {
        let numeric = out.numeric_columns[i];
        if i < left.numeric_columns.len() {
            assert(left.header.contains(left.numeric_columns[i]));
            let j = choose|j: int| 0 <= j < left.header.len() && left.header[j] == numeric;
            assert(out.header[j] == numeric);
        } else {
            let k = i - left.numeric_columns.len();
            assert(kept_numeric[k] == numeric);
            assert(kept_numeric.contains(numeric));
            lemma_filter_contains(right.numeric_columns, is_not(name), numeric);
            let q = choose|q: int|
                0 <= q < right.numeric_columns.len() && right.numeric_columns[q] == numeric;
            assert(right.header.contains(right.numeric_columns[q]));
            lemma_filter_contains(right.header, is_not(name), numeric);
            let j = choose|j: int| 0 <= j < kept.len() && kept[j] == numeric;
            assert(out.header[width + j] == numeric);
        }
    }
}

} // verus!
