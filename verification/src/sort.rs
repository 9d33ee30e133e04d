//! Ordering rows by an integer column, largest first, equal rows in their
//! given order.

use vstd::prelude::*;
use crate::table::{row_views, Cell, CellView, Row};

verus! {

/// The integer by which a row is ordered: its cell at `column`.
pub open spec fn sort_key(row: Seq<CellView>, column: int) -> int {
    match row[column] {
        CellView::Int64(v) => v as int,
        _ => 0,
    }
}

/// Every row has an integer cell at `column`.
pub open spec fn sortable(rows: Seq<Seq<CellView>>, column: int) -> bool {
    forall|i: int|
        0 <= i < rows.len() ==> 0 <= column < (#[trigger] rows[i]).len()
            && rows[i][column] is Int64
}

/// `sorted` with `row` put behind the last row whose key is not below its
/// own.
pub open spec fn insert_descending(
    sorted: Seq<Seq<CellView>>,
    row: Seq<CellView>,
    column: int,
) -> Seq<Seq<CellView>>
    decreases sorted.len(),
{
    if sorted.len() == 0 {
        seq![row]
    } else if sort_key(sorted.last(), column) >= sort_key(row, column) {
        sorted.push(row)
    } else {
        insert_descending(sorted.drop_last(), row, column).push(sorted.last())
    }
}

/// The rows ordered by their key at `column`, largest first; rows with the
/// same key keep the order they came in.
pub open spec fn sorted_descending(rows: Seq<Seq<CellView>>, column: int) -> Seq<Seq<CellView>>
    decreases rows.len(),
{
    if rows.len() == 0 {
        rows
    } else {
        insert_descending(sorted_descending(rows.drop_last(), column), rows.last(), column)
    }
}

/// No row is followed by one with a larger key at `column`.
pub open spec fn is_descending(rows: Seq<Seq<CellView>>, column: int) -> bool {
    forall|i: int, j: int|
        0 <= i <= j < rows.len() ==> sort_key(#[trigger] rows[i], column) >= sort_key(
            #[trigger] rows[j],
            column,
        )
}

/// The test whether a row has the key `key` at `column`.
pub open spec fn has_key(column: int, key: int) -> spec_fn(Seq<CellView>) -> bool {
    |row: Seq<CellView>| sort_key(row, column) == key
}

/// For every key, both sequences hold the same rows with that key, in the
/// same order.
pub open spec fn same_order(
    first: Seq<Seq<CellView>>,
    second: Seq<Seq<CellView>>,
    column: int,
) -> bool {
    forall|key: int|
        #[trigger] first.filter(has_key(column, key)) == second.filter(has_key(column, key))
}

/// Ordering rows gives the same number of rows, each of them one of the
/// rows that were given.
pub proof fn lemma_sorted_members(rows: Seq<Seq<CellView>>, column: int)
    ensures
        sorted_descending(rows, column).len() == rows.len(),
        forall|i: int|
            0 <= i < rows.len() ==> rows.contains(#[trigger] sorted_descending(rows, column)[i]),
    decreases rows.len(),
{
    if rows.len() > 0 {
        let rest = rows.drop_last();
        let before = sorted_descending(rest, column);
        lemma_sorted_members(rest, column);
        lemma_inserted_members(before, rows.last(), column);
        let after = sorted_descending(rows, column);
        assert forall|i: int| 0 <= i < rows.len() implies rows.contains(#[trigger] after[i]) by {
            if after[i] == rows.last() {
                assert(rows[rows.len() - 1] == after[i]);
            } else {
                let j = choose|j: int| 0 <= j < before.len() && before[j] == after[i];
                assert(rest.contains(before[j]));
                let k = choose|k: int| 0 <= k < rest.len() && rest[k] == before[j];
                assert(rows[k] == after[i]);
            }
        }
    }
}

/// Inserting a row gives one row more: the new one, and the old ones.
pub proof fn lemma_inserted_members(sorted: Seq<Seq<CellView>>, row: Seq<CellView>, column: int)
    ensures
        insert_descending(sorted, row, column).len() == sorted.len() + 1,
        forall|i: int|
            0 <= i <= sorted.len() ==> {
                let r = #[trigger] insert_descending(sorted, row, column)[i];
                r == row || sorted.contains(r)
            },
    decreases sorted.len(),
{
    if sorted.len() == 0 {
    } else if sort_key(sorted.last(), column) >= sort_key(row, column) {
        let after = sorted.push(row);
        assert forall|i: int| 0 <= i <= sorted.len() implies {
            let r = #[trigger] after[i];
            r == row || sorted.contains(r)
        } by {
            if i < sorted.len() {
                assert(sorted[i] == after[i]);
            }
        }
    } else {
        let rest = sorted.drop_last();
        lemma_inserted_members(rest, row, column);
        let inner = insert_descending(rest, row, column);
        let after = inner.push(sorted.last());
        assert forall|i: int| 0 <= i <= sorted.len() implies {
            let r = #[trigger] after[i];
            r == row || sorted.contains(r)
        } by {
            if i < sorted.len() {
                let r = inner[i];
                if r != row {
                    let j = choose|j: int| 0 <= j < rest.len() && rest[j] == r;
                    assert(sorted[j] == r);
                }
            } else {
                assert(sorted[sorted.len() - 1] == after[i]);
            }
        }
    }
}

/// Inserting a row into rows that are in descending order leaves them in
/// descending order.
pub proof fn lemma_inserted_descending(sorted: Seq<Seq<CellView>>, row: Seq<CellView>, column: int)
    requires
        is_descending(sorted, column),
    ensures
        is_descending(insert_descending(sorted, row, column), column),
    decreases sorted.len(),
{
    let after = insert_descending(sorted, row, column);
    if sorted.len() == 0 {
    } else if sort_key(sorted.last(), column) >= sort_key(row, column) {
        assert forall|i: int, j: int| 0 <= i <= j < after.len() implies sort_key(
            #[trigger] after[i],
            column,
        ) >= sort_key(#[trigger] after[j], column) by {
            if i < sorted.len() {
                assert(after[i] == sorted[i]);
                assert(sort_key(sorted[i], column) >= sort_key(sorted[sorted.len() - 1], column));
            }
            if j < sorted.len() {
                assert(after[j] == sorted[j]);
            }
        }
    } else {
        let rest = sorted.drop_last();
        let inner = insert_descending(rest, row, column);
        assert forall|i: int, j: int| 0 <= i <= j < rest.len() implies sort_key(
            #[trigger] rest[i],
            column,
        ) >= sort_key(#[trigger] rest[j], column) by {
            assert(rest[i] == sorted[i] && rest[j] == sorted[j]);
        }
        lemma_inserted_descending(rest, row, column);
        lemma_inserted_members(rest, row, column);
        assert forall|i: int, j: int| 0 <= i <= j < after.len() implies sort_key(
            #[trigger] after[i],
            column,
        ) >= sort_key(#[trigger] after[j], column) by {
            if j < inner.len() {
                assert(after[i] == inner[i] && after[j] == inner[j]);
            } else if i < inner.len() {
                let r = inner[i];
                assert(after[i] == r);
                if r != row {
                    let k = choose|k: int| 0 <= k < rest.len() && rest[k] == r;
                    assert(sorted[k] == r);
                    assert(sort_key(sorted[k], column) >= sort_key(
                        sorted[sorted.len() - 1],
                        column,
                    ));
                }
            }
        }
    }
}

/// Ordered rows are in descending order.
pub proof fn lemma_sorted_is_descending(rows: Seq<Seq<CellView>>, column: int)
    ensures
        is_descending(sorted_descending(rows, column), column),
    decreases rows.len(),
{
    if rows.len() > 0 {
        lemma_sorted_is_descending(rows.drop_last(), column);
        lemma_inserted_descending(
            sorted_descending(rows.drop_last(), column),
            rows.last(),
            column,
        );
    }
}

/// Ordering rows that are in descending order changes nothing.
pub proof fn lemma_descending_unchanged(rows: Seq<Seq<CellView>>, column: int)
    requires
        is_descending(rows, column),
    ensures
        sorted_descending(rows, column) == rows,
    decreases rows.len(),
{
    if rows.len() > 0 {
        let rest = rows.drop_last();
        assert forall|i: int, j: int| 0 <= i <= j < rest.len() implies sort_key(
            #[trigger] rest[i],
            column,
        ) >= sort_key(#[trigger] rest[j], column) by {
            assert(rest[i] == rows[i] && rest[j] == rows[j]);
        }
        lemma_descending_unchanged(rest, column);
        if rest.len() > 0 {
            assert(rest.last() == rows[rows.len() - 2]);
            assert(sort_key(rows[rows.len() - 2], column) >= sort_key(
                rows[rows.len() - 1],
                column,
            ));
        }
        assert(rest.push(rows.last()) =~= rows);
    }
}

/// Inserting a row adds it to the rows, however often they hold it already.
pub proof fn lemma_inserted_multiset(sorted: Seq<Seq<CellView>>, row: Seq<CellView>, column: int)
    ensures
        insert_descending(sorted, row, column).to_multiset() == sorted.to_multiset().insert(row),
    decreases sorted.len(),
{
    broadcast use vstd::seq_lib::to_multiset_build;

    if sorted.len() == 0 {
        assert(seq![row] =~= sorted.push(row));
    } else if sort_key(sorted.last(), column) >= sort_key(row, column) {
    } else {
        let rest = sorted.drop_last();
        lemma_inserted_multiset(rest, row, column);
        assert(rest.push(sorted.last()) =~= sorted);
        assert(rest.to_multiset().insert(row).insert(sorted.last()) =~= rest.to_multiset().insert(
            sorted.last(),
        ).insert(row));
    }
}

/// Ordering rows rearranges them: every row occurs as often as before.
pub proof fn lemma_sorted_multiset(rows: Seq<Seq<CellView>>, column: int)
    ensures
        sorted_descending(rows, column).to_multiset() == rows.to_multiset(),
    decreases rows.len(),
{
    broadcast use vstd::seq_lib::to_multiset_build;

    if rows.len() > 0 {
        let rest = rows.drop_last();
        lemma_sorted_multiset(rest, column);
        lemma_inserted_multiset(sorted_descending(rest, column), rows.last(), column);
        assert(rest.push(rows.last()) =~= rows);
    }
}

/// Inserting a row puts it behind the rows that have its key, and leaves
/// the rows of every other key as they are.
pub proof fn lemma_inserted_same_order(
    sorted: Seq<Seq<CellView>>,
    row: Seq<CellView>,
    column: int,
    key: int,
)
    ensures
        insert_descending(sorted, row, column).filter(has_key(column, key)) == if sort_key(
            row,
            column,
        ) == key {
            sorted.filter(has_key(column, key)).push(row)
        } else {
            sorted.filter(has_key(column, key))
        },
    decreases sorted.len(),
{
    reveal(Seq::filter);
    let wanted = has_key(column, key);
    if sorted.len() == 0 {
        assert(seq![row].drop_last() =~= sorted);
    } else if sort_key(sorted.last(), column) >= sort_key(row, column) {
        assert(sorted.push(row).drop_last() =~= sorted);
    } else {
        let inner = insert_descending(sorted.drop_last(), row, column);
        lemma_inserted_same_order(sorted.drop_last(), row, column, key);
        assert(inner.push(sorted.last()).drop_last() =~= inner);
    }
}

/// Ordering rows leaves the rows of each key in the order they came in.
pub proof fn lemma_sorted_same_order(rows: Seq<Seq<CellView>>, column: int)
    ensures
        same_order(sorted_descending(rows, column), rows, column),
    decreases rows.len(),
{
    reveal(Seq::filter);
    if rows.len() > 0 {
        let rest = rows.drop_last();
        lemma_sorted_same_order(rest, column);
        assert forall|key: int|
            #[trigger] sorted_descending(rows, column).filter(has_key(column, key))
                == rows.filter(has_key(column, key)) by {
            lemma_inserted_same_order(sorted_descending(rest, column), rows.last(), column, key);
            assert(sorted_descending(rest, column).filter(has_key(column, key)) == rest.filter(
                has_key(column, key),
            ));
        }
    }
}

/// There is one way only to put rows in descending order and keep the rows
/// of each key in their order.
pub proof fn lemma_descending_unique(
    first: Seq<Seq<CellView>>,
    second: Seq<Seq<CellView>>,
    column: int,
)
    requires
        is_descending(first, column),
        is_descending(second, column),
        same_order(first, second, column),
    ensures
        first == second,
    decreases first.len(),
{
    reveal(Seq::filter);
    if first.len() == 0 {
        if second.len() > 0 {
            let key = sort_key(second.last(), column);
            assert(first.filter(has_key(column, key)) == second.filter(has_key(column, key)));
        }
        assert(first =~= second);
    } else {
        let a = first.last();
        let key_a = sort_key(a, column);
        let with_a = has_key(column, key_a);
        assert(first.filter(with_a) == second.filter(with_a));
        assert(first.filter(with_a) == first.drop_last().filter(with_a).push(a));
        assert(second.len() > 0);
        let b = second.last();
        let key_b = sort_key(b, column);
        let with_b = has_key(column, key_b);
        assert(first.filter(with_b) == second.filter(with_b));
        assert(second.filter(with_b) == second.drop_last().filter(with_b).push(b));
        assert(key_a == key_b) by {
            let kept = second.filter(with_a);
            assert(kept[kept.len() - 1] == a);
            assert(kept.contains(a));
            second.lemma_filter_contains_rev(with_a, a);
            let i = choose|i: int| 0 <= i < second.len() && second[i] == a;
            assert(sort_key(second[i], column) >= sort_key(second[second.len() - 1], column));
            let held = first.filter(with_b);
            assert(held[held.len() - 1] == b);
            assert(held.contains(b));
            first.lemma_filter_contains_rev(with_b, b);
            let j = choose|j: int| 0 <= j < first.len() && first[j] == b;
            assert(sort_key(first[j], column) >= sort_key(first[first.len() - 1], column));
        }
        assert(a == b) by {
            let kept = first.filter(with_a);
            assert(kept[kept.len() - 1] == a);
            let held = second.filter(with_b);
            assert(held[held.len() - 1] == b);
        }
        let first_rest = first.drop_last();
        let second_rest = second.drop_last();
        assert forall|key: int|
            #[trigger] first_rest.filter(has_key(column, key)) == second_rest.filter(
                has_key(column, key),
            ) by {
            assert(first.filter(has_key(column, key)) == second.filter(has_key(column, key)));
            if key == key_a {
                assert(first_rest.filter(with_a) =~= first.filter(with_a).drop_last());
                assert(second_rest.filter(with_a) =~= second.filter(with_a).drop_last());
            }
        }
        assert forall|i: int, j: int| 0 <= i <= j < first_rest.len() implies sort_key(
            #[trigger] first_rest[i],
            column,
        ) >= sort_key(#[trigger] first_rest[j], column) by {
            assert(first_rest[i] == first[i] && first_rest[j] == first[j]);
        }
        assert forall|i: int, j: int| 0 <= i <= j < second_rest.len() implies sort_key(
            #[trigger] second_rest[i],
            column,
        ) >= sort_key(#[trigger] second_rest[j], column) by {
            assert(second_rest[i] == second[i] && second_rest[j] == second[j]);
        }
        lemma_descending_unique(first_rest, second_rest, column);
        assert(first =~= first_rest.push(a));
        assert(second =~= second_rest.push(b));
    }
}

/// Rows in descending order that hold the given rows, those of each key in
/// their order, are the given rows ordered.
pub proof fn lemma_is_sorted(rows: Seq<Seq<CellView>>, ordered: Seq<Seq<CellView>>, column: int)
    requires
        is_descending(ordered, column),
        same_order(ordered, rows, column),
    ensures
        ordered == sorted_descending(rows, column),
{
    lemma_sorted_is_descending(rows, column);
    lemma_sorted_same_order(rows, column);
    assert forall|key: int|
        #[trigger] ordered.filter(has_key(column, key)) == sorted_descending(
            rows,
            column,
        ).filter(has_key(column, key)) by {
        assert(ordered.filter(has_key(column, key)) == rows.filter(has_key(column, key)));
        assert(sorted_descending(rows, column).filter(has_key(column, key)) == rows.filter(
            has_key(column, key),
        ));
    }
    lemma_descending_unique(ordered, sorted_descending(rows, column), column);
}

fn key_of(row: &Row, column: usize) -> (r: i64)
    requires
        column < row@.len(),
        row@[column as int] is Int64,
    ensures
        r == sort_key(row@, column as int),
{
    match &row.cells[column] {
        Cell::Int64(v) => *v,
        _ => 0,
    }
}

/// Merges two runs of rows, each in descending order, into one. Of rows
/// with the same key those of `left` come first.
fn merge(left: Vec<Row>, right: Vec<Row>, column: usize) -> (r: Vec<Row>)
    requires
        sortable(row_views(left@), column as int),
        sortable(row_views(right@), column as int),
        is_descending(row_views(left@), column as int),
        is_descending(row_views(right@), column as int),
    ensures
        is_descending(row_views(r@), column as int),
        same_order(row_views(r@), row_views(left@) + row_views(right@), column as int),
{
    let mut left = left;
    let mut right = right;
    let ghost c = column as int;
    let ghost from_left = row_views(left@);
    let ghost from_right = row_views(right@);
    let ghost mut tail: Seq<Seq<CellView>> = Seq::empty();
    let mut reversed: Vec<Row> = Vec::new();
    proof {
        reveal(Seq::filter);
        assert(from_left.skip(from_left.len() as int) =~= Seq::<Seq<CellView>>::empty());
        assert(from_right.skip(from_right.len() as int) =~= Seq::<Seq<CellView>>::empty());
        assert forall|key: int|
            #[trigger] tail.filter(has_key(c, key)) == from_left.skip(left.len() as int).filter(
                has_key(c, key),
            ) + from_right.skip(right.len() as int).filter(has_key(c, key)) by {
            assert(tail.filter(has_key(c, key)) =~= from_left.skip(left.len() as int).filter(
                has_key(c, key),
            ) + from_right.skip(right.len() as int).filter(has_key(c, key)));
        }
    }
    while left.len() > 0 || right.len() > 0
        invariant
            c == column as int,
            left.len() <= from_left.len(),
            right.len() <= from_right.len(),
            sortable(from_left, c),
            sortable(from_right, c),
            is_descending(from_left, c),
            is_descending(from_right, c),
            forall|i: int| 0 <= i < left.len() ==> (#[trigger] left@[i])@ == from_left[i],
            forall|i: int| 0 <= i < right.len() ==> (#[trigger] right@[i])@ == from_right[i],
            reversed.len() == tail.len(),
            tail.len() == (from_left.len() - left.len()) + (from_right.len() - right.len()),
            forall|i: int|
                0 <= i < reversed.len() ==> (#[trigger] reversed@[i])@ == tail[tail.len() - 1 - i],
            is_descending(tail, c),
            forall|t: int, i: int|
                0 <= t < tail.len() && 0 <= i < left.len() ==> sort_key(
                    #[trigger] from_left[i],
                    c,
                ) >= sort_key(#[trigger] tail[t], c),
            forall|t: int, i: int|
                0 <= t < tail.len() && 0 <= i < right.len() ==> sort_key(
                    #[trigger] from_right[i],
                    c,
                ) >= sort_key(#[trigger] tail[t], c),
            forall|i: int|
                left.len() <= i < from_left.len() && right.len() > 0 ==> sort_key(
                    #[trigger] from_left[i],
                    c,
                ) < sort_key(from_right[right.len() - 1], c),
            forall|key: int|
                #[trigger] tail.filter(has_key(c, key)) == from_left.skip(
                    left.len() as int,
                ).filter(has_key(c, key)) + from_right.skip(right.len() as int).filter(
                    has_key(c, key),
                ),
        decreases left.len() + right.len(),
    {
        let ghost i = left.len() as int;
        let ghost j = right.len() as int;
        let ghost before = tail;
        let from_the_right = if right.len() == 0 {
            false
        } else if left.len() == 0 {
            true
        } else {
            assert(left@[i - 1]@ == from_left[i - 1]);
            assert(right@[j - 1]@ == from_right[j - 1]);
            key_of(&right[right.len() - 1], column) <= key_of(&left[left.len() - 1], column)
        };
        if from_the_right {
            assert(right@[j - 1]@ == from_right[j - 1]);
            let row = right.pop().unwrap();
            proof {
                let x = from_right[j - 1];
                let key_x = sort_key(x, c);
                tail = seq![x] + before;
                assert(from_right.skip(j - 1) =~= seq![x] + from_right.skip(j));
                assert forall|a: int, b: int| 0 <= a <= b < tail.len() implies sort_key(
                    #[trigger] tail[a],
                    c,
                ) >= sort_key(#[trigger] tail[b], c) by {
                    if a > 0 {
                        assert(tail[a] == before[a - 1] && tail[b] == before[b - 1]);
                    } else if b > 0 {
                        assert(tail[b] == before[b - 1]);
                        assert(sort_key(from_right[j - 1], c) >= sort_key(before[b - 1], c));
                    }
                }
                assert forall|t: int, a: int|
                    0 <= t < tail.len() && 0 <= a < left.len() implies sort_key(
                    #[trigger] from_left[a],
                    c,
                ) >= sort_key(#[trigger] tail[t], c) by {
                    if t > 0 {
                        assert(tail[t] == before[t - 1]);
                    } else {
                        assert(sort_key(from_left[a], c) >= sort_key(from_left[i - 1], c));
                    }
                }
                assert forall|t: int, b: int|
                    0 <= t < tail.len() && 0 <= b < right.len() implies sort_key(
                    #[trigger] from_right[b],
                    c,
                ) >= sort_key(#[trigger] tail[t], c) by {
                    if t > 0 {
                        assert(tail[t] == before[t - 1]);
                    } else {
                        assert(sort_key(from_right[b], c) >= sort_key(from_right[j - 1], c));
                    }
                }
                assert forall|a: int|
                    left.len() <= a < from_left.len() && right.len() > 0 implies sort_key(
                    #[trigger] from_left[a],
                    c,
                ) < sort_key(from_right[right.len() - 1], c) by {
                    assert(sort_key(from_right[j - 2], c) >= sort_key(from_right[j - 1], c));
                }
                assert forall|key: int|
                    #[trigger] tail.filter(has_key(c, key)) == from_left.skip(i).filter(
                        has_key(c, key),
                    ) + from_right.skip(j - 1).filter(has_key(c, key)) by {
                    let wanted = has_key(c, key);
                    before.lemma_filter_prepend(x, wanted);
                    from_right.skip(j).lemma_filter_prepend(x, wanted);
                    assert(before.filter(wanted) == from_left.skip(i).filter(wanted)
                        + from_right.skip(j).filter(wanted));
                    if key == key_x {
                        let taken = from_left.skip(i);
                        assert(taken.all(|row: Seq<CellView>| !wanted(row))) by {
                            assert forall|a: int| 0 <= a < taken.len() implies !wanted(
                                #[trigger] taken[a],
                            ) by {
                                assert(taken[a] == from_left[i + a]);
                            }
                        }
                        taken.lemma_all_neg_filter_empty(wanted);
                        assert(taken.filter(wanted) =~= Seq::<Seq<CellView>>::empty());
                        assert(tail.filter(wanted) =~= taken.filter(wanted) + from_right.skip(
                            j - 1,
                        ).filter(wanted));
                    } else {
                        assert(tail.filter(wanted) =~= from_left.skip(i).filter(wanted)
                            + from_right.skip(j - 1).filter(wanted));
                    }
                }
            }
            reversed.push(row);
        } else {
            assert(left@[i - 1]@ == from_left[i - 1]);
            let row = left.pop().unwrap();
            proof {
                let x = from_left[i - 1];
                tail = seq![x] + before;
                assert(from_left.skip(i - 1) =~= seq![x] + from_left.skip(i));
                assert forall|a: int, b: int| 0 <= a <= b < tail.len() implies sort_key(
                    #[trigger] tail[a],
                    c,
                ) >= sort_key(#[trigger] tail[b], c) by {
                    if a > 0 {
                        assert(tail[a] == before[a - 1] && tail[b] == before[b - 1]);
                    } else if b > 0 {
                        assert(tail[b] == before[b - 1]);
                        assert(sort_key(from_left[i - 1], c) >= sort_key(before[b - 1], c));
                    }
                }
                assert forall|t: int, a: int|
                    0 <= t < tail.len() && 0 <= a < left.len() implies sort_key(
                    #[trigger] from_left[a],
                    c,
                ) >= sort_key(#[trigger] tail[t], c) by {
                    if t > 0 {
                        assert(tail[t] == before[t - 1]);
                    } else {
                        assert(sort_key(from_left[a], c) >= sort_key(from_left[i - 1], c));
                    }
                }
                assert forall|t: int, b: int|
                    0 <= t < tail.len() && 0 <= b < right.len() implies sort_key(
                    #[trigger] from_right[b],
                    c,
                ) >= sort_key(#[trigger] tail[t], c) by {
                    if t > 0 {
                        assert(tail[t] == before[t - 1]);
                    } else {
                        assert(sort_key(from_right[b], c) >= sort_key(from_right[j - 1], c));
                    }
                }
                assert forall|key: int|
                    #[trigger] tail.filter(has_key(c, key)) == from_left.skip(i - 1).filter(
                        has_key(c, key),
                    ) + from_right.skip(j).filter(has_key(c, key)) by {
                    let wanted = has_key(c, key);
                    before.lemma_filter_prepend(x, wanted);
                    from_left.skip(i).lemma_filter_prepend(x, wanted);
                    assert(before.filter(wanted) == from_left.skip(i).filter(wanted)
                        + from_right.skip(j).filter(wanted));
                    assert(tail.filter(wanted) =~= from_left.skip(i - 1).filter(wanted)
                        + from_right.skip(j).filter(wanted));
                }
            }
            reversed.push(row);
        }
    }
    let mut out: Vec<Row> = Vec::new();
    while reversed.len() > 0
        invariant
            out.len() + reversed.len() == tail.len(),
            forall|i: int|
                0 <= i < reversed.len() ==> (#[trigger] reversed@[i])@ == tail[tail.len() - 1 - i],
            forall|i: int| 0 <= i < out.len() ==> (#[trigger] out@[i])@ == tail[i],
        decreases reversed.len(),
    {
        let row = reversed.pop().unwrap();
        out.push(row);
    }
    proof {
        assert(row_views(out@) =~= tail);
        assert(from_left.skip(0) =~= from_left);
        assert(from_right.skip(0) =~= from_right);
        assert forall|key: int|
            #[trigger] tail.filter(has_key(c, key)) == (from_left + from_right).filter(
                has_key(c, key),
            ) by {
            Seq::filter_distributes_over_add(from_left, from_right, has_key(c, key));
            assert(tail.filter(has_key(c, key)) == from_left.skip(0).filter(has_key(c, key))
                + from_right.skip(0).filter(has_key(c, key)));
        }
    }
    out
}

/// Orders the rows by a merge sort.
fn merge_sort(rows: Vec<Row>, column: usize) -> (r: Vec<Row>)
    requires
        sortable(row_views(rows@), column as int),
    ensures
        row_views(r@) == sorted_descending(row_views(rows@), column as int),
    decreases rows.len(),
{
    let ghost c = column as int;
    let ghost all = row_views(rows@);
    if rows.len() <= 1 {
        proof {
            lemma_descending_unchanged(all, c);
        }
        return rows;
    }
    let mut left = rows;
    let middle = left.len() / 2;
    let right = left.split_off(middle);
    let ghost first = row_views(left@);
    let ghost second = row_views(right@);
    proof {
        assert(first =~= all.take(middle as int));
        assert(second =~= all.skip(middle as int));
        assert(all =~= first + second);
        assert forall|i: int| 0 <= i < first.len() implies 0 <= c < (#[trigger] first[i]).len()
            && first[i][c] is Int64 by {
            assert(first[i] == all[i]);
        }
        assert forall|i: int| 0 <= i < second.len() implies 0 <= c < (#[trigger] second[i]).len()
            && second[i][c] is Int64 by {
            assert(second[i] == all[middle + i]);
        }
    }
    let left = merge_sort(left, column);
    let right = merge_sort(right, column);
    proof {
        lemma_sorted_is_descending(first, c);
        lemma_sorted_is_descending(second, c);
        lemma_sorted_members(first, c);
        lemma_sorted_members(second, c);
        assert forall|i: int| 0 <= i < left.len() implies 0 <= c < (#[trigger] row_views(
            left@,
        )[i]).len() && row_views(left@)[i][c] is Int64 by {
            let row = sorted_descending(first, c)[i];
            assert(first.contains(row));
            let k = choose|k: int| 0 <= k < first.len() && first[k] == row;
            assert(first[k][c] is Int64);
        }
        assert forall|i: int| 0 <= i < right.len() implies 0 <= c < (#[trigger] row_views(
            right@,
        )[i]).len() && row_views(right@)[i][c] is Int64 by {
            let row = sorted_descending(second, c)[i];
            assert(second.contains(row));
            let k = choose|k: int| 0 <= k < second.len() && second[k] == row;
            assert(second[k][c] is Int64);
        }
    }
    let merged = merge(left, right, column);
    proof {
        let ordered = row_views(merged@);
        lemma_sorted_same_order(first, c);
        lemma_sorted_same_order(second, c);
        assert forall|key: int|
            #[trigger] ordered.filter(has_key(c, key)) == all.filter(has_key(c, key)) by {
            let wanted = has_key(c, key);
            Seq::filter_distributes_over_add(first, second, wanted);
            Seq::filter_distributes_over_add(
                sorted_descending(first, c),
                sorted_descending(second, c),
                wanted,
            );
            assert(ordered.filter(wanted) == (sorted_descending(first, c) + sorted_descending(
                second,
                c,
            )).filter(wanted));
            assert(sorted_descending(first, c).filter(wanted) == first.filter(wanted));
            assert(sorted_descending(second, c).filter(wanted) == second.filter(wanted));
        }
        lemma_is_sorted(all, ordered, c);
    }
    merged
}

/// Orders `rows` by the integer at `col_index`, largest first. Rows with the
/// same integer keep the order they had.
pub fn sort_table(rows: &mut Vec<Row>, col_index: usize)
    requires
        sortable(row_views(old(rows)@), col_index as int),
    ensures
        row_views(final(rows)@) == sorted_descending(row_views(old(rows)@), col_index as int),
        is_descending(row_views(final(rows)@), col_index as int),
        same_order(row_views(final(rows)@), row_views(old(rows)@), col_index as int),
{
    proof {
        lemma_sorted_is_descending(row_views(rows@), col_index as int);
        lemma_sorted_same_order(row_views(rows@), col_index as int);
    }
    let mut taken: Vec<Row> = Vec::new();
    std::mem::swap(rows, &mut taken);
    *rows = merge_sort(taken, col_index);
}

} // verus!
