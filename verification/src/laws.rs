//! What holds of every evaluation, whatever the chain and the data.

use vstd::prelude::*;
use crate::commands::{
    dataset_named, join_invalid_dataset_message, join_missing_column_message,
    join_missing_dataset_message, parsed, parsed_from,
};
use crate::data::Dataset;
use crate::datasets::DataSetView;
use crate::operators::{evaluated, loaded, OperatorErrorView, OperatorView};
use crate::relation::{
    count_cell, distinct_cells, first_missing, histogram, holds, join_rows, lemma_distinct_cells,
    lemma_filter_next, lemma_occurrences, occurrences,
};
use crate::sort::{
    insert_descending, is_descending, lemma_descending_unchanged, lemma_sorted_is_descending,
    lemma_sorted_members, lemma_sorted_multiset, sort_key, sorted_descending,
};
use crate::table::{CellView, TableView};
use crate::text::{
    decimal, decimal_digits, decimal_value, digit_value, is_digit, is_no_digit, leading_run,
    lemma_leading_run, parsed_count, CountError,
};
use crate::facts::{
    lemma_distinct_covers, lemma_distinct_members, lemma_joined_well_formed, lemma_missing,
};
use crate::typing::{lemma_evaluated_typed, lemma_loaded_typed};

verus! {

/// The decimal digits of a number are digits, and stand for the number.
proof fn lemma_decimal_digits(n: nat)
    ensures
        decimal_digits(n).len() > 0,
        forall|i: int| 0 <= i < decimal_digits(n).len() ==> is_digit(#[trigger] decimal_digits(n)[i]),
        decimal_value(decimal_digits(n)) == n,
    decreases n,
{
    let digits = decimal_digits(n);
    if n < 10 {
        assert(digits.drop_last() =~= Seq::<char>::empty());
        assert(is_digit(digits[0]) && digit_value(digits[0]) == n);
        assert(decimal_value(digits.drop_last()) == 0);
    } else {
        lemma_decimal_digits(n / 10);
        assert(digits.drop_last() =~= decimal_digits(n / 10));
        assert(is_digit(digits.last()) && digit_value(digits.last()) == n % 10);
        assert forall|i: int| 0 <= i < digits.len() implies is_digit(#[trigger] digits[i]) by {
            if i < digits.len() - 1 {
                assert(digits[i] == decimal_digits(n / 10)[i]);
            }
        }
    }
}

/// Reading the decimal text of a count gives the count.
pub proof fn law_count_round_trip(count: usize)
    ensures
        parsed_count(decimal(count as int)) == Ok::<usize, CountError>(count),
{
    let digits = decimal_digits(count as nat);
    lemma_decimal_digits(count as nat);
    assert(is_digit(digits[0]));
    let stop = is_no_digit();
    assert forall|i: int| 0 <= i < digits.len() implies !stop(digits[i]) by {}
    lemma_leading_run(digits, stop, digits.len() as int);
    assert(digits.take(digits.len() as int) =~= digits);
    assert(leading_run(digits, stop) == digits.len());
}

/// A chain begins with `FROM`: tokens that begin with anything else, and no
/// tokens at all, are no chain.
pub proof fn law_chain_begins_with_from(tokens: Seq<Seq<char>>)
    requires
        tokens.len() == 0 || tokens[0] != "FROM"@,
    ensures
        parsed(tokens) is Err,
{
}

/// What is wrong behind a `JOIN` that follows a chain. Where nothing follows
/// it, the dataset is missing; where a token follows that names no dataset,
/// the dataset is unknown; where a dataset follows and nothing else, the name
/// of the column is missing. The complaint about the column differs from
/// both complaints about the dataset.
pub proof fn law_join_tells_dataset_from_column(
    tokens: Seq<Seq<char>>,
    at: int,
    chain: OperatorView,
)
    requires
        0 <= at < tokens.len(),
        tokens[at] == "JOIN"@,
    ensures
        at + 1 == tokens.len() ==> parsed_from(tokens, at, Some(chain)) == Err::<
            OperatorView,
            Seq<char>,
        >(join_missing_dataset_message()),
        at + 1 < tokens.len() && dataset_named(tokens[at + 1]) is None ==> parsed_from(
            tokens,
            at,
            Some(chain),
        ) == Err::<OperatorView, Seq<char>>(join_invalid_dataset_message(tokens[at + 1])),
        at + 2 == tokens.len() && dataset_named(tokens[at + 1]) is Some ==> parsed_from(
            tokens,
            at,
            Some(chain),
        ) == Err::<OperatorView, Seq<char>>(join_missing_column_message()),
        join_missing_dataset_message() != join_missing_column_message(),
        forall|name: Seq<char>|
            #[trigger] join_invalid_dataset_message(name) != join_missing_column_message(),
{
    reveal_strlit("JOIN");
    reveal_strlit("FROM");
    reveal_strlit("SELECT");
    reveal_strlit("TAKE");
    reveal_strlit("ORDERBY");
    reveal_strlit("COUNTBY");
    assert("JOIN"@[0] != "FROM"@[0]);
    assert("JOIN"@[0] != "TAKE"@[0]);
    reveal_strlit("JOIN must be followed by the dataset to join on.");
    reveal_strlit("JOIN must be followed by the dataset and the name of the column to join on.");
    reveal_strlit("Invalid dataset to JOIN on: ");
    assert(join_missing_dataset_message().len() != join_missing_column_message().len());
    assert forall|name: Seq<char>|
        #[trigger] join_invalid_dataset_message(name) != join_missing_column_message() by {
        assert(join_invalid_dataset_message(name)[0] == 'I');
        assert(join_missing_column_message()[0] == 'J');
    }
}

/// `FROM` gives a table exactly when the dataset was loaded; the table has
/// the columns and the numeric columns of the dataset, and its rows.
pub proof fn law_from_has_schema(dataset: Dataset, data: DataSetView)
    ensures
        evaluated(OperatorView::From(dataset), data) is Ok <==> data.rows(dataset) is Ok,
        evaluated(OperatorView::From(dataset), data) matches Ok(table) ==> table.header
            == dataset.columns() && table.numeric_columns == dataset.numeric() && Ok::<
            Seq<Seq<CellView>>,
            Seq<char>,
        >(table.rows) == data.rows(dataset),
{
}

/// An evaluation looks at the datasets that the chain names and at no
/// other: where two loads agree on those, the chain gives the same.
pub proof fn law_evaluation_reads_named_datasets(
    operator: OperatorView,
    first: DataSetView,
    second: DataSetView,
)
    requires
        forall|dataset: Dataset|
            operator.uses(dataset) ==> first.rows(dataset) == second.rows(dataset),
    ensures
        evaluated(operator, first) == evaluated(operator, second),
    decreases operator,
{
    match operator {
        OperatorView::From(dataset) => {
            assert(operator.uses(dataset));
        },
        OperatorView::Select { chain, .. } => {
            law_evaluation_reads_named_datasets(*chain, first, second);
        },
        OperatorView::Take { chain, .. } => {
            law_evaluation_reads_named_datasets(*chain, first, second);
        },
        OperatorView::OrderBy { chain, .. } => {
            law_evaluation_reads_named_datasets(*chain, first, second);
        },
        OperatorView::CountBy { chain, .. } => {
            law_evaluation_reads_named_datasets(*chain, first, second);
        },
        OperatorView::Join { chain, right, .. } => {
            assert(operator.uses(right));
            law_evaluation_reads_named_datasets(*chain, first, second);
        },
    }
}

/// Taking `first` rows and then `second` rows leaves the rows that taking
/// the smaller number leaves, and as many rows as the smallest of `first`,
/// `second` and the number of rows there were.
pub proof fn law_take_twice(chain: OperatorView, first: usize, second: usize, data: DataSetView)
    ensures
        match evaluated(chain, data) {
            Ok(table) => {
                let smaller = if first <= second {
                    first
                } else {
                    second
                };
                let least = if smaller as int <= table.rows.len() {
                    smaller as int
                } else {
                    table.rows.len() as int
                };
                evaluated(
                    OperatorView::Take {
                        chain: Box::new(OperatorView::Take { chain: Box::new(chain), count: first }),
                        count: second,
                    },
                    data,
                ) matches Ok(result) && result == table.taken(smaller as nat) && result.rows.len()
                    == least
            },
            Err(e) => evaluated(
                OperatorView::Take {
                    chain: Box::new(OperatorView::Take { chain: Box::new(chain), count: first }),
                    count: second,
                },
                data,
            ) == Err::<TableView, OperatorErrorView>(e),
        },
{
    if let Ok(table) = evaluated(chain, data) {
        let smaller = if first <= second {
            first
        } else {
            second
        };
        let once = table.taken(first as nat);
        let inner = OperatorView::Take { chain: Box::new(chain), count: first };
        assert(evaluated(inner, data) == Ok::<TableView, OperatorErrorView>(once));
        assert(once.taken(second as nat).rows =~= table.taken(smaller as nat).rows);
        assert(evaluated(OperatorView::Take { chain: Box::new(inner), count: second }, data)
            == Ok::<TableView, OperatorErrorView>(once.taken(second as nat)));
    } else {
        let inner = OperatorView::Take { chain: Box::new(chain), count: first };
        assert(evaluated(inner, data) is Err);
    }
}

/// The rows that `ORDERBY` gives are in descending order of the column:
/// no row is followed, next to it or later, by one with a larger value.
pub proof fn law_orderby_descends(chain: OperatorView, column: Seq<char>, data: DataSetView)
    ensures
        evaluated(OperatorView::OrderBy { chain: Box::new(chain), column }, data) matches Ok(
            result,
        ) ==> result.column_index(column) matches Some(index) && is_descending(
            result.rows,
            index,
        ) && forall|r: int|
            0 <= r < result.rows.len() - 1 ==> sort_key(#[trigger] result.rows[r], index)
                >= sort_key(result.rows[r + 1], index),
{
    if let Ok(table) = evaluated(chain, data) {
        if let Some(index) = table.column_index(column) {
            lemma_sorted_is_descending(table.rows, index);
        }
    }
}

/// Ordering by a column what is ordered by that column changes nothing.
pub proof fn law_orderby_twice(chain: OperatorView, column: Seq<char>, data: DataSetView)
    ensures
        evaluated(
            OperatorView::OrderBy {
                chain: Box::new(OperatorView::OrderBy { chain: Box::new(chain), column }),
                column,
            },
            data,
        ) == evaluated(OperatorView::OrderBy { chain: Box::new(chain), column }, data),
{
    if let Ok(table) = evaluated(chain, data) {
        if let Some(index) = table.column_index(column) {
            lemma_sorted_is_descending(table.rows, index);
            lemma_descending_unchanged(sorted_descending(table.rows, index), index);
        }
    }
}

/// Selecting a name that is no column is an error that names the first
/// such name and the chain.
pub proof fn law_select_missing_column(
    chain: OperatorView,
    column_names: Seq<Seq<char>>,
    data: DataSetView,
)
    ensures
        evaluated(chain, data) matches Ok(table) ==> (evaluated(
            OperatorView::Select { chain: Box::new(chain), column_names },
            data,
        ) is Ok <==> forall|k: int|
            0 <= k < column_names.len() ==> table.header.contains(#[trigger] column_names[k])),
        evaluated(chain, data) matches Ok(table) ==> (first_missing(table.header, column_names)
            matches Some(name) ==> !table.header.contains(name) && column_names.contains(name)
            && evaluated(OperatorView::Select { chain: Box::new(chain), column_names }, data)
            == Err::<TableView, OperatorErrorView>(
            OperatorErrorView::NoSuchColumn { operator: "Select"@, chain, column_name: name },
        )),
{
    if let Ok(table) = evaluated(chain, data) {
        lemma_missing(table.header, column_names);
    }
}

/// Ordering by a column that is not numeric is an error that names the
/// column.
pub proof fn law_orderby_not_numeric(chain: OperatorView, column: Seq<char>, data: DataSetView)
    ensures
        evaluated(chain, data) matches Ok(table) ==> (evaluated(
            OperatorView::OrderBy { chain: Box::new(chain), column },
            data,
        ) is Ok <==> table.numeric_columns.contains(column)),
        evaluated(chain, data) matches Ok(table) ==> (!table.numeric_columns.contains(column)
            ==> evaluated(OperatorView::OrderBy { chain: Box::new(chain), column }, data)
            == Err::<TableView, OperatorErrorView>(
            OperatorErrorView::OrderByColumnNotNumeric { column_name: column },
        )),
{
    if let Ok(table) = evaluated(chain, data) {
        if table.numeric_columns.contains(column) {
            lemma_evaluated_typed(chain, data);
            let k = choose|k: int|
                0 <= k < table.numeric_columns.len() && table.numeric_columns[k] == column;
            assert(table.header.contains(table.numeric_columns[k]));
            table.header.index_of_first_ensures(column);
        }
    }
}

/// Joining on a name that is no column of the left table, or none of the
/// right table, is an error that names the column and the chain.
pub proof fn law_join_missing_column(
    chain: OperatorView,
    right: Dataset,
    column: Seq<char>,
    data: DataSetView,
)
    ensures
        evaluated(chain, data) matches Ok(left) ==> (loaded(data, right, "JOIN"@) matches Ok(
            right_table,
        ) ==> {
            let joined = evaluated(
                OperatorView::Join { chain: Box::new(chain), right, column },
                data,
            );
            &&& joined is Ok <==> left.header.contains(column) && right_table.header.contains(
                column,
            )
            &&& joined is Err ==> joined == Err::<TableView, OperatorErrorView>(
                OperatorErrorView::NoSuchColumn { operator: "JOIN"@, chain, column_name: column },
            )
        }),
{
    if let Ok(left) = evaluated(chain, data) {
        if let Ok(right_table) = loaded(data, right, "JOIN"@) {
            left.header.index_of_first_ensures(column);
            right_table.header.index_of_first_ensures(column);
        }
    }
}

/// The sum of the counts in the second column of `rows`.
pub open spec fn count_total(rows: Seq<Seq<CellView>>) -> int
    decreases rows.len(),
{
    if rows.len() == 0 {
        0
    } else {
        count_total(rows.drop_last()) + sort_key(rows.last(), 1)
    }
}

/// The sum of the numbers of rows that hold each of `values` at `column`.
pub open spec fn occurrences_total(
    values: Seq<CellView>,
    rows: Seq<Seq<CellView>>,
    column: int,
) -> int
    decreases values.len(),
{
    if values.len() == 0 {
        0
    } else {
        occurrences_total(values.drop_last(), rows, column) + occurrences(
            rows,
            column,
            values.last(),
        )
    }
}

/// One more row adds one to the sum of occurrences if its value is among
/// `values`, and nothing if it is not.
proof fn lemma_occurrences_total_next(
    values: Seq<CellView>,
    rows: Seq<Seq<CellView>>,
    column: int,
)
    requires
        values.no_duplicates(),
        rows.len() > 0,
    ensures
        occurrences_total(values, rows, column) == occurrences_total(
            values,
            rows.drop_last(),
            column,
        ) + if values.contains(rows.last()[column]) {
            1int
        } else {
            0int
        },
    decreases values.len(),
{
    if values.len() > 0 {
        let rest = values.drop_last();
        let cell = rows.last()[column];
        lemma_occurrences_total_next(rest, rows, column);
        if values.last() == cell {
            if rest.contains(cell) {
                let k = choose|k: int| 0 <= k < rest.len() && rest[k] == cell;
                assert(values[k] == values[values.len() - 1]);
            }
            assert(values[values.len() - 1] == cell);
        } else {
            if rest.contains(cell) {
                let k = choose|k: int| 0 <= k < rest.len() && rest[k] == cell;
                assert(values[k] == cell);
            }
            if values.contains(cell) {
                let k = choose|k: int| 0 <= k < values.len() && values[k] == cell;
                assert(rest[k] == cell);
            }
        }
    }
}

/// Every row is counted once: the occurrences of the distinct values add up
/// to the number of rows.
proof fn lemma_occurrences_total(rows: Seq<Seq<CellView>>, column: int)
    ensures
        occurrences_total(distinct_cells(rows, column), rows, column) == rows.len(),
    decreases rows.len(),
{
    if rows.len() > 0 {
        let rest = rows.drop_last();
        let cell = rows.last()[column];
        let before = distinct_cells(rest, column);
        let values = distinct_cells(rows, column);
        lemma_occurrences_total(rest, column);
        lemma_distinct_cells(rows, column);
        lemma_distinct_cells(rest, column);
        lemma_occurrences_total_next(values, rows, column);
        if before.contains(cell) {
        } else {
            assert(values.drop_last() =~= before);
            assert(values[values.len() - 1] == cell);
            lemma_occurrences(rest, column, cell);
        }
    }
}

/// The counts of a histogram add up to what the occurrences of its values
/// add up to.
proof fn lemma_histogram_total(values: Seq<CellView>, rows: Seq<Seq<CellView>>, column: int)
    requires
        rows.len() <= i64::MAX,
    ensures
        count_total(
            values.map_values(
                |cell: CellView|
                    seq![cell, count_cell(occurrences(rows, column, cell))],
            ),
        ) == occurrences_total(values, rows, column),
    decreases values.len(),
{
    let groups = values.map_values(
        |cell: CellView| seq![cell, count_cell(occurrences(rows, column, cell))],
    );
    if values.len() > 0 {
        lemma_histogram_total(values.drop_last(), rows, column);
        lemma_occurrences(rows, column, values.last());
        assert(groups.drop_last() =~= values.drop_last().map_values(
            |cell: CellView|
                seq![cell, count_cell(occurrences(rows, column, cell))],
        ));
    }
}

/// Inserting a row adds its count to the sum.
proof fn lemma_count_total_inserted(sorted: Seq<Seq<CellView>>, row: Seq<CellView>)
    ensures
        count_total(insert_descending(sorted, row, 1)) == count_total(sorted) + sort_key(row, 1),
    decreases sorted.len(),
{
    if sorted.len() == 0 {
        assert(seq![row].drop_last() =~= sorted);
    } else if sort_key(sorted.last(), 1) >= sort_key(row, 1) {
        assert(sorted.push(row).drop_last() =~= sorted);
    } else {
        let inner = insert_descending(sorted.drop_last(), row, 1);
        lemma_count_total_inserted(sorted.drop_last(), row);
        assert(inner.push(sorted.last()).drop_last() =~= inner);
    }
}

/// Ordering rows leaves the sum of their counts as it is.
proof fn lemma_count_total_sorted(rows: Seq<Seq<CellView>>)
    ensures
        count_total(sorted_descending(rows, 1)) == count_total(rows),
    decreases rows.len(),
{
    if rows.len() > 0 {
        lemma_count_total_sorted(rows.drop_last());
        lemma_count_total_inserted(sorted_descending(rows.drop_last(), 1), rows.last());
    }
}

/// The rows of the histogram, the largest count first.
pub open spec fn counted_rows(rows: Seq<Seq<CellView>>, index: int) -> Seq<Seq<CellView>> {
    sorted_descending(histogram(rows, index), 1)
}

/// The counts of the ordered histogram add up to the number of rows.
proof fn lemma_counted_total(rows: Seq<Seq<CellView>>, index: int)
    requires
        rows.len() <= i64::MAX,
    ensures
        count_total(counted_rows(rows, index)) == rows.len(),
{
    lemma_count_total_sorted(histogram(rows, index));
    lemma_histogram_total(distinct_cells(rows, index), rows, index);
    lemma_occurrences_total(rows, index);
}

/// The value of every row stands in a row of the ordered histogram.
proof fn lemma_counted_covers(rows: Seq<Seq<CellView>>, index: int)
    ensures
        forall|r: int|
            0 <= r < rows.len() ==> exists|k: int|
                0 <= k < counted_rows(rows, index).len() && (#[trigger] counted_rows(
                    rows,
                    index,
                )[k])[0] == (#[trigger] rows[r])[index],
{
    let values = distinct_cells(rows, index);
    let groups = histogram(rows, index);
    let out = counted_rows(rows, index);
    lemma_sorted_multiset(groups, 1);
    lemma_distinct_covers(rows, index);
    assert forall|r: int| 0 <= r < rows.len() implies exists|k: int|
        0 <= k < out.len() && (#[trigger] out[k])[0] == (#[trigger] rows[r])[index] by {
        let j = choose|j: int| 0 <= j < values.len() && values[j] == rows[r][index];
        assert(groups[j][0] == values[j]);
        assert(groups.contains(groups[j]));
        vstd::seq_lib::to_multiset_contains(groups, groups[j]);
        vstd::seq_lib::to_multiset_contains(out, groups[j]);
        let k = choose|k: int| 0 <= k < out.len() && out[k] == groups[j];
        assert(out[k][0] == rows[r][index]);
    }
}

/// The value in every row of the ordered histogram is the value of a row.
proof fn lemma_counted_origin(rows: Seq<Seq<CellView>>, index: int)
    ensures
        forall|k: int|
            0 <= k < counted_rows(rows, index).len() ==> exists|r: int|
                0 <= r < rows.len() && (#[trigger] rows[r])[index] == (#[trigger] counted_rows(
                    rows,
                    index,
                )[k])[0],
{
    let values = distinct_cells(rows, index);
    let groups = histogram(rows, index);
    let out = counted_rows(rows, index);
    lemma_sorted_members(groups, 1);
    lemma_distinct_members(rows, index);
    assert forall|k: int| 0 <= k < out.len() implies exists|r: int|
        0 <= r < rows.len() && (#[trigger] rows[r])[index] == (#[trigger] out[k])[0] by {
        assert(groups.contains(out[k]));
        let j = choose|j: int| 0 <= j < groups.len() && groups[j] == out[k];
        assert(groups[j][0] == values[j]);
        let r = choose|r: int| 0 <= r < rows.len() && rows[r][index] == values[j];
        assert(rows[r][index] == out[k][0]);
    }
}

/// No two rows of the ordered histogram hold the same value.
proof fn lemma_counted_distinct(rows: Seq<Seq<CellView>>, index: int)
    ensures
        forall|k: int, m: int|
            0 <= k < m < counted_rows(rows, index).len() ==> (#[trigger] counted_rows(
                rows,
                index,
            )[k])[0] != (#[trigger] counted_rows(rows, index)[m])[0],
{
    let values = distinct_cells(rows, index);
    let groups = histogram(rows, index);
    let out = counted_rows(rows, index);
    lemma_sorted_members(groups, 1);
    lemma_sorted_multiset(groups, 1);
    lemma_distinct_cells(rows, index);
    assert(groups.no_duplicates()) by {
        assert forall|a: int, b: int|
            0 <= a < groups.len() && 0 <= b < groups.len() && a != b implies groups[a]
            != groups[b] by {
            assert(groups[a][0] == values[a] && groups[b][0] == values[b]);
        }
    }
    groups.lemma_multiset_has_no_duplicates();
    out.lemma_multiset_has_no_duplicates_conv();
    assert forall|k: int, m: int| 0 <= k < m < out.len() implies (#[trigger] out[k])[0] != (
    #[trigger] out[m])[0] by {
        assert(groups.contains(out[k]));
        assert(groups.contains(out[m]));
        let a = choose|a: int| 0 <= a < groups.len() && groups[a] == out[k];
        let b = choose|b: int| 0 <= b < groups.len() && groups[b] == out[m];
        assert(groups[a][0] == values[a] && groups[b][0] == values[b]);
        assert(out[k] != out[m]);
    }
}

/// The sum, over the rows of a histogram, of the numbers of `rows` that
/// hold the value of the histogram's row at `column`.
pub open spec fn counted_occurrences(
    groups: Seq<Seq<CellView>>,
    rows: Seq<Seq<CellView>>,
    column: int,
) -> int
    decreases groups.len(),
{
    if groups.len() == 0 {
        0
    } else {
        counted_occurrences(groups.drop_last(), rows, column) + occurrences(
            rows,
            column,
            groups.last()[0],
        )
    }
}

/// Inserting a row into a histogram adds the occurrences of its value.
proof fn lemma_counted_occurrences_inserted(
    sorted: Seq<Seq<CellView>>,
    group: Seq<CellView>,
    rows: Seq<Seq<CellView>>,
    column: int,
)
    ensures
        counted_occurrences(insert_descending(sorted, group, 1), rows, column)
            == counted_occurrences(sorted, rows, column) + occurrences(rows, column, group[0]),
    decreases sorted.len(),
{
    if sorted.len() == 0 {
        assert(seq![group].drop_last() =~= sorted);
    } else if sort_key(sorted.last(), 1) >= sort_key(group, 1) {
        assert(sorted.push(group).drop_last() =~= sorted);
    } else {
        let inner = insert_descending(sorted.drop_last(), group, 1);
        lemma_counted_occurrences_inserted(sorted.drop_last(), group, rows, column);
        assert(inner.push(sorted.last()).drop_last() =~= inner);
    }
}

/// Ordering a histogram leaves the sum of the occurrences as it is.
proof fn lemma_counted_occurrences_sorted(
    groups: Seq<Seq<CellView>>,
    rows: Seq<Seq<CellView>>,
    column: int,
)
    ensures
        counted_occurrences(sorted_descending(groups, 1), rows, column) == counted_occurrences(
            groups,
            rows,
            column,
        ),
    decreases groups.len(),
{
    if groups.len() > 0 {
        lemma_counted_occurrences_sorted(groups.drop_last(), rows, column);
        lemma_counted_occurrences_inserted(
            sorted_descending(groups.drop_last(), 1),
            groups.last(),
            rows,
            column,
        );
    }
}

/// The occurrences of the values of a histogram's rows add up to what the
/// occurrences of the values add up to.
proof fn lemma_counted_occurrences_histogram(
    values: Seq<CellView>,
    rows: Seq<Seq<CellView>>,
    column: int,
)
    ensures
        counted_occurrences(
            values.map_values(
                |cell: CellView| seq![cell, count_cell(occurrences(rows, column, cell))],
            ),
            rows,
            column,
        ) == occurrences_total(values, rows, column),
    decreases values.len(),
{
    let groups = values.map_values(
        |cell: CellView| seq![cell, count_cell(occurrences(rows, column, cell))],
    );
    if values.len() > 0 {
        lemma_counted_occurrences_histogram(values.drop_last(), rows, column);
        assert(groups.drop_last() =~= values.drop_last().map_values(
            |cell: CellView| seq![cell, count_cell(occurrences(rows, column, cell))],
        ));
    }
}

/// Every row is counted once, however many rows there are: the occurrences
/// of the values of the ordered histogram add up to the number of rows.
proof fn lemma_counted_occurrences(rows: Seq<Seq<CellView>>, index: int)
    ensures
        counted_occurrences(counted_rows(rows, index), rows, index) == rows.len(),
{
    lemma_counted_occurrences_sorted(histogram(rows, index), rows, index);
    lemma_counted_occurrences_histogram(distinct_cells(rows, index), rows, index);
    lemma_occurrences_total(rows, index);
}

/// Every row of the ordered histogram is a value and the number of rows
/// that hold it, which is at least one.
proof fn lemma_counted_shape(rows: Seq<Seq<CellView>>, index: int)
    ensures
        forall|k: int|
            0 <= k < counted_rows(rows, index).len() ==> {
                let group = #[trigger] counted_rows(rows, index)[k];
                group == seq![group[0], count_cell(occurrences(rows, index, group[0]))]
                    && occurrences(rows, index, group[0]) >= 1
            },
{
    let values = distinct_cells(rows, index);
    let groups = histogram(rows, index);
    let out = counted_rows(rows, index);
    lemma_sorted_members(groups, 1);
    assert forall|k: int| 0 <= k < out.len() implies {
        let group = #[trigger] out[k];
        group == seq![group[0], count_cell(occurrences(rows, index, group[0]))] && occurrences(
            rows,
            index,
            group[0],
        ) >= 1
    } by {
        assert(groups.contains(out[k]));
        let j = choose|j: int| 0 <= j < groups.len() && groups[j] == out[k];
        assert(groups[j][0] == values[j]);
        assert(values.contains(values[j]));
        lemma_occurrences(rows, index, values[j]);
    }
}

/// What `COUNTBY` counts. The table it gives has the column and the column
/// `count`. Each value that the column holds in the input stands in exactly
/// one row of it, and no other value does. Beside each value stands the
/// number of rows that hold it, which is at least one, and these numbers add
/// up to the number of rows of the input. Where the input has no more rows
/// than an `i64` can count, the cells of the column `count` hold these
/// numbers as they are, and so add up to the number of rows as well.
pub proof fn law_countby_counts(chain: OperatorView, column: Seq<char>, data: DataSetView)
    ensures
        evaluated(chain, data) matches Ok(table) ==> (evaluated(
            OperatorView::CountBy { chain: Box::new(chain), column },
            data,
        ) matches Ok(result) ==> table.column_index(column) matches Some(index) && {
            &&& result.header == seq![column, "count"@]
            &&& forall|k: int|
                0 <= k < result.rows.len() ==> {
                    let group = #[trigger] result.rows[k];
                    group == seq![group[0], count_cell(occurrences(table.rows, index, group[0]))]
                        && occurrences(table.rows, index, group[0]) >= 1
                }
            &&& counted_occurrences(result.rows, table.rows, index) == table.rows.len()
            &&& table.rows.len() <= i64::MAX ==> count_total(result.rows) == table.rows.len()
            &&& forall|r: int|
                0 <= r < table.rows.len() ==> exists|k: int|
                    0 <= k < result.rows.len() && (#[trigger] result.rows[k])[0]
                        == (#[trigger] table.rows[r])[index]
            &&& forall|k: int|
                0 <= k < result.rows.len() ==> exists|r: int|
                    0 <= r < table.rows.len() && (#[trigger] table.rows[r])[index]
                        == (#[trigger] result.rows[k])[0]
            &&& forall|k: int, m: int|
                0 <= k < m < result.rows.len() ==> (#[trigger] result.rows[k])[0]
                    != (#[trigger] result.rows[m])[0]
        }),
{
    if let Ok(table) = evaluated(chain, data) {
        if let Some(index) = table.column_index(column) {
            let result = table.counted(column, index);
            assert(result.rows == counted_rows(table.rows, index));
            if table.rows.len() <= i64::MAX {
                lemma_counted_total(table.rows, index);
            }
            lemma_counted_shape(table.rows, index);
            lemma_counted_occurrences(table.rows, index);
            lemma_counted_covers(table.rows, index);
            lemma_counted_origin(table.rows, index);
            lemma_counted_distinct(table.rows, index);
        }
    }
}

/// The pairs of a row of `left_rows` and a row of `right_rows`, each given
/// by its index, that hold equal cells at `left_index` and `right_index`.
pub open spec fn matching_pairs(
    left_rows: Seq<Seq<CellView>>,
    right_rows: Seq<Seq<CellView>>,
    left_index: int,
    right_index: int,
) -> Set<(int, int)> {
    Set::new(
        |p: (int, int)|
            0 <= p.0 < left_rows.len() && 0 <= p.1 < right_rows.len()
                && left_rows[p.0][left_index] == right_rows[p.1][right_index],
    )
}

/// The matching pairs that come before the pair of the rows `a` and `b`.
spec fn pairs_before(
    left_rows: Seq<Seq<CellView>>,
    right_rows: Seq<Seq<CellView>>,
    left_index: int,
    right_index: int,
    a: int,
    b: int,
) -> Set<(int, int)> {
    Set::new(
        |p: (int, int)|
            matching_pairs(left_rows, right_rows, left_index, right_index).contains(p) && (p.0 < a
                || (p.0 == a && p.1 < b)),
    )
}

/// The join has one row for each matching pair that comes before the pair
/// of the rows `a` and `b`, when only so much of the tables is joined.
proof fn lemma_pairs_before(
    left_rows: Seq<Seq<CellView>>,
    right_rows: Seq<Seq<CellView>>,
    left_index: int,
    right_index: int,
    a: int,
    b: int,
)
    requires
        0 <= a <= left_rows.len(),
        0 <= b <= right_rows.len(),
        a == left_rows.len() ==> b == 0,
    ensures
        pairs_before(left_rows, right_rows, left_index, right_index, a, b).finite(),
        pairs_before(left_rows, right_rows, left_index, right_index, a, b).len() == join_rows(
            left_rows.take(a),
            right_rows,
            left_index,
            right_index,
        ).len() + right_rows.take(b).filter(holds(left_rows[a][left_index], right_index)).len(),
    decreases a, b,
{
    reveal(Seq::filter);
    let here = pairs_before(left_rows, right_rows, left_index, right_index, a, b);
    if b > 0 {
        let earlier = pairs_before(left_rows, right_rows, left_index, right_index, a, b - 1);
        lemma_pairs_before(left_rows, right_rows, left_index, right_index, a, b - 1);
        lemma_filter_next(
            right_rows,
            holds(left_rows[a][left_index], right_index),
            b - 1,
        );
        if left_rows[a][left_index] == right_rows[b - 1][right_index] {
            assert(here =~= earlier.insert((a, b - 1)));
        } else {
            assert(here =~= earlier);
        }
    } else if a > 0 {
        let earlier = pairs_before(
            left_rows,
            right_rows,
            left_index,
            right_index,
            a - 1,
            right_rows.len() as int,
        );
        lemma_pairs_before(
            left_rows,
            right_rows,
            left_index,
            right_index,
            a - 1,
            right_rows.len() as int,
        );
        assert(here =~= earlier);
        assert(right_rows.take(right_rows.len() as int) =~= right_rows);
        assert(left_rows.take(a).drop_last() =~= left_rows.take(a - 1));
        assert(left_rows.take(a).last() == left_rows[a - 1]);
    } else {
        assert(here =~= Set::<(int, int)>::empty());
        assert(left_rows.take(0) =~= Seq::<Seq<CellView>>::empty());
    }
}

/// The join has one row for each matching pair.
pub proof fn lemma_join_counts_pairs(
    left_rows: Seq<Seq<CellView>>,
    right_rows: Seq<Seq<CellView>>,
    left_index: int,
    right_index: int,
)
    ensures
        matching_pairs(left_rows, right_rows, left_index, right_index).finite(),
        join_rows(left_rows, right_rows, left_index, right_index).len() == matching_pairs(
            left_rows,
            right_rows,
            left_index,
            right_index,
        ).len(),
{
    reveal(Seq::filter);
    let all = left_rows.len() as int;
    lemma_pairs_before(left_rows, right_rows, left_index, right_index, all, 0);
    assert(pairs_before(left_rows, right_rows, left_index, right_index, all, 0) =~= matching_pairs(
        left_rows,
        right_rows,
        left_index,
        right_index,
    ));
    assert(left_rows.take(all) =~= left_rows);
}

/// What `JOIN` joins. The table it gives has one row for each pair of a
/// left row and a right row that hold equal cells in the column. Each of
/// its rows has the cells of the left table and those of the right table
/// but one, and so has its header.
pub proof fn law_join_counts_pairs(
    chain: OperatorView,
    right: Dataset,
    column: Seq<char>,
    data: DataSetView,
)
    ensures
        evaluated(chain, data) matches Ok(left) ==> (loaded(data, right, "JOIN"@) matches Ok(
            right_table,
        ) ==> (evaluated(OperatorView::Join { chain: Box::new(chain), right, column }, data)
            matches Ok(result) ==> left.column_index(column) matches Some(left_index)
            && right_table.column_index(column) matches Some(right_index) && {
            let pairs = matching_pairs(left.rows, right_table.rows, left_index, right_index);
            &&& pairs.finite()
            &&& result.rows.len() == pairs.len()
            &&& result.header.len() == left.header.len() + right_table.header.len() - 1
            &&& forall|k: int|
                0 <= k < result.rows.len() ==> (#[trigger] result.rows[k]).len()
                    == left.header.len() + right_table.header.len() - 1
        })),
{
    if let Ok(left) = evaluated(chain, data) {
        if let Ok(right_table) = loaded(data, right, "JOIN"@) {
            if let Some(left_index) = left.column_index(column) {
                if let Some(right_index) = right_table.column_index(column) {
                    let result = left.joined_with(right_table, column, left_index, right_index);
                    lemma_evaluated_typed(chain, data);
                    lemma_loaded_typed(data, right, "JOIN"@);
                    left.header.index_of_first_ensures(column);
                    right_table.header.index_of_first_ensures(column);
                    lemma_join_counts_pairs(left.rows, right_table.rows, left_index, right_index);
                    lemma_joined_well_formed(left, right_table, column, left_index, right_index);
                }
            }
        }
    }
}

} // verus!
