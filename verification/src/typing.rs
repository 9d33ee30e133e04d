//! What holds of every table that an evaluation produces: its numeric
//! columns are the ones with an integer column's name, and they hold
//! integers. Ordering by a numeric column therefore never meets anything
//! but integers.

use vstd::prelude::*;
use crate::data::Dataset;
use crate::datasets::DataSetView;
use crate::operators::{evaluated, loaded, OperatorView};
use crate::facts::{
    is_joined_row, lemma_counted_well_formed, lemma_distinct_members, lemma_filter_contains,
    lemma_join_members, lemma_joined_well_formed, lemma_missing, lemma_ordered_well_formed,
    lemma_selected_well_formed, lemma_taken_well_formed,
};
use crate::relation::{column_indices, distinct_cells, first_missing, histogram, is_among, is_not};
use crate::sort::{lemma_sorted_members, sortable};
use crate::table::TableView;

verus! {

/// Whether `name` is the name of a column of integers: one of the numeric
/// columns of the datasets, or the column of counts.
pub open spec fn is_integer_column(name: Seq<char>) -> bool {
    name == "CityID"@ || name == "CityPop"@ || name == "CountryPop"@ || name == "count"@
}

impl TableView {
    /// The table is well formed, its numeric columns are exactly its
    /// columns with the name of an integer column, and these hold integers
    /// in every row.
    pub open spec fn typed(self) -> bool {
        &&& self.well_formed()
        &&& forall|i: int|
            0 <= i < self.header.len() ==> (self.numeric_columns.contains(#[trigger] self.header[i])
                <==> is_integer_column(self.header[i]))
        &&& forall|r: int, i: int|
            0 <= r < self.rows.len() && 0 <= i < self.header.len() && is_integer_column(
                self.header[i],
            ) ==> (#[trigger] self.rows[r][i]) is Int64
    }
}

/// The rows of a typed table can be ordered by any of its numeric columns.
pub proof fn lemma_typed_sortable(table: TableView, index: int)
    requires
        table.typed(),
        0 <= index < table.header.len(),
        table.numeric_columns.contains(table.header[index]),
    ensures
        sortable(table.rows, index),
{
    assert forall|i: int| 0 <= i < table.rows.len() implies 0 <= index < (
    #[trigger] table.rows[i]).len() && table.rows[i][index] is Int64 by {
        assert(table.rows[i][index] is Int64);
    }
}

/// Different names of columns are different texts.
proof fn lemma_names_differ()
    ensures
        "CityID"@.len() == 6,
        "CityName"@.len() == 8,
        "CountryCode"@.len() == 11,
        "CityPop"@.len() == 7,
        "CountryName"@.len() == 11,
        "Continent"@.len() == 9,
        "CountryPop"@.len() == 10,
        "Capital"@.len() == 7,
        "Language"@.len() == 8,
        "count"@.len() == 5,
        "Capital"@ != "CityPop"@,
        "CountryCode"@ != "CountryName"@,
        "CityName"@ != "Language"@,
{
    reveal_strlit("CityID");
    reveal_strlit("CityName");
    reveal_strlit("CountryCode");
    reveal_strlit("CityPop");
    reveal_strlit("CountryName");
    reveal_strlit("Continent");
    reveal_strlit("CountryPop");
    reveal_strlit("Capital");
    reveal_strlit("Language");
    reveal_strlit("count");
    assert("Capital"@[1] != "CityPop"@[1]);
    assert("CountryCode"@[7] != "CountryName"@[7]);
    assert("CityName"@[0] != "Language"@[0]);
}

/// The columns of a dataset have different names, its numeric columns are
/// among them, and they are its columns with the name of an integer column.
pub proof fn lemma_schema(dataset: Dataset)
    ensures
        dataset.columns().no_duplicates(),
        forall|i: int|
            0 <= i < dataset.numeric().len() ==> dataset.columns().contains(
                #[trigger] dataset.numeric()[i],
            ),
        forall|i: int|
            0 <= i < dataset.columns().len() ==> (dataset.numeric().contains(
                #[trigger] dataset.columns()[i],
            ) <==> is_integer_column(dataset.columns()[i])),
{
    lemma_names_differ();
    let columns = dataset.columns();
    let numeric = dataset.numeric();
    match dataset {
        Dataset::City => {
            assert(columns[0] == "CityID"@ && columns[3] == "CityPop"@);
            assert(numeric[0] == "CityID"@ && numeric[1] == "CityPop"@);
        },
        Dataset::Country => {
            assert(columns[3] == "CountryPop"@);
            assert(numeric[0] == "CountryPop"@);
        },
        Dataset::Language => {},
    }
}

/// A loaded dataset is a typed table.
pub proof fn lemma_loaded_typed(data: DataSetView, dataset: Dataset, operator: Seq<char>)
    ensures
        loaded(data, dataset, operator) matches Ok(table) ==> table.typed()
            && table.header.no_duplicates(),
{
    lemma_schema(dataset);
    lemma_names_differ();
    if let Ok(table) = loaded(data, dataset, operator) {
        match dataset {
            Dataset::City => {
                let records = data.cities->Ok_0;
                assert forall|r: int| 0 <= r < table.rows.len() implies (#[trigger] table.rows[r])
                    == records[r].row() by {}
            },
            Dataset::Country => {
                let records = data.countries->Ok_0;
                assert forall|r: int| 0 <= r < table.rows.len() implies (#[trigger] table.rows[r])
                    == records[r].row() by {}
            },
            Dataset::Language => {
                let records = data.languages->Ok_0;
                assert forall|r: int| 0 <= r < table.rows.len() implies (#[trigger] table.rows[r])
                    == records[r].row() by {}
            },
        }
    }
}

/// Choosing columns of a typed table gives a typed table.
pub proof fn lemma_selected_typed(table: TableView, names: Seq<Seq<char>>)
    requires
        table.typed(),
        first_missing(table.header, names) is None,
    ensures
        table.selected(names).typed(),
{
    let out = table.selected(names);
    let found = column_indices(table.header, names);
    lemma_missing(table.header, names);
    lemma_selected_well_formed(table, names);
    assert forall|k: int| 0 <= k < names.len() implies 0 <= #[trigger] found[k]
        < table.header.len() && table.header[found[k]] == names[k] by {
        table.header.index_of_first_ensures(names[k]);
    }
    assert forall|k: int| 0 <= k < out.header.len() implies (out.numeric_columns.contains(
        #[trigger] out.header[k],
    ) <==> is_integer_column(out.header[k])) by {
        let name = names[k];
        lemma_filter_contains(names, is_among(table.numeric_columns), name);
        assert(names.contains(name));
        assert(table.header[found[k]] == name);
    }
    assert forall|r: int, k: int|
        0 <= r < out.rows.len() && 0 <= k < out.header.len() && is_integer_column(
            out.header[k],
        ) implies (#[trigger] out.rows[r][k]) is Int64 by {
        assert(out.rows[r][k] == table.rows[r][found[k]]);
        assert(table.header[found[k]] == names[k]);
    }
}

/// The first rows of a typed table are a typed table.
pub proof fn lemma_taken_typed(table: TableView, count: nat)
    requires
        table.typed(),
    ensures
        table.taken(count).typed(),
{
    let out = table.taken(count);
    lemma_taken_well_formed(table, count);
    assert forall|r: int, i: int|
        0 <= r < out.rows.len() && 0 <= i < out.header.len() && is_integer_column(
            out.header[i],
        ) implies (#[trigger] out.rows[r][i]) is Int64 by {
        assert(out.rows[r] == table.rows[r]);
        assert(table.rows[r][i] is Int64);
    }
}

/// Ordering the rows of a typed table gives a typed table.
pub proof fn lemma_ordered_typed(table: TableView, index: int)
    requires
        table.typed(),
    ensures
        table.ordered(index).typed(),
{
    let out = table.ordered(index);
    lemma_sorted_members(table.rows, index);
    lemma_ordered_well_formed(table, index);
    assert forall|r: int, i: int|
        0 <= r < out.rows.len() && 0 <= i < out.header.len() && is_integer_column(
            out.header[i],
        ) implies (#[trigger] out.rows[r][i]) is Int64 by {
        assert(table.rows.contains(out.rows[r]));
        let j = choose|j: int| 0 <= j < table.rows.len() && table.rows[j] == out.rows[r];
        assert(table.rows[j][i] is Int64);
    }
}

/// The histogram of a column of a typed table is a typed table.
pub proof fn lemma_counted_typed(table: TableView, name: Seq<char>, index: int)
    requires
        table.typed(),
        0 <= index < table.header.len(),
        table.header[index] == name,
    ensures
        table.counted(name, index).typed(),
{
    let out = table.counted(name, index);
    let groups = histogram(table.rows, index);
    let values = distinct_cells(table.rows, index);
    lemma_sorted_members(groups, 1);
    lemma_distinct_members(table.rows, index);
    lemma_counted_well_formed(table, name, index);
    assert(out.header[0] == name && out.header[1] == "count"@);
    assert(is_integer_column("count"@));
    assert forall|r: int| 0 <= r < out.rows.len() implies (#[trigger] out.rows[r]).len() == 2
        && out.rows[r][1] is Int64 && (is_integer_column(name) ==> out.rows[r][0] is Int64) by {
        assert(groups.contains(out.rows[r]));
        let j = choose|j: int| 0 <= j < groups.len() && groups[j] == out.rows[r];
        assert(groups[j][0] == values[j]);
        let q = choose|q: int| 0 <= q < table.rows.len() && table.rows[q][index] == values[j];
        if is_integer_column(name) {
            assert(table.rows[q][index] is Int64);
        }
    }
    if table.numeric_columns.contains(name) {
        assert(out.numeric_columns[0] == name && out.numeric_columns[1] == "count"@);
    } else {
        assert(out.numeric_columns[0] == "count"@);
        assert(!is_integer_column(name));
    }
    assert forall|r: int, i: int|
        0 <= r < out.rows.len() && 0 <= i < out.header.len() && is_integer_column(
            out.header[i],
        ) implies (#[trigger] out.rows[r][i]) is Int64 by {
        assert(out.rows[r].len() == 2);
    }
}

/// The join of a typed table with a typed table whose columns have
/// different names is a typed table.
pub proof fn lemma_joined_typed(
    left: TableView,
    right: TableView,
    name: Seq<char>,
    left_index: int,
    right_index: int,
)
    requires
        left.typed(),
        right.typed(),
        right.header.no_duplicates(),
        0 <= left_index < left.header.len(),
        0 <= right_index < right.header.len(),
        right.header[right_index] == name,
    ensures
        left.joined_with(right, name, left_index, right_index).typed(),
{
    let out = left.joined_with(right, name, left_index, right_index);
    let kept = right.header.filter(is_not(name));
    let kept_numeric = right.numeric_columns.filter(is_not(name));
    let width = left.header.len();
    lemma_joined_well_formed(left, right, name, left_index, right_index);
    lemma_join_members(left.rows, right.rows, left_index, right_index);
    assert forall|i: int| 0 <= i < out.header.len() implies (out.numeric_columns.contains(
        #[trigger] out.header[i],
    ) <==> is_integer_column(out.header[i])) by {
        let column = out.header[i];
        vstd::seq_lib::lemma_seq_concat_contains_all_elements(
            left.numeric_columns,
            kept_numeric,
            column,
        );
        lemma_filter_contains(right.numeric_columns, is_not(name), column);
        if right.numeric_columns.contains(column) {
            let q = choose|q: int|
                0 <= q < right.numeric_columns.len() && right.numeric_columns[q] == column;
            assert(right.header.contains(right.numeric_columns[q]));
            let j = choose|j: int| 0 <= j < right.header.len() && right.header[j] == column;
            assert(is_integer_column(right.header[j]));
        }
        if i < width {
            assert(column == left.header[i]);
        } else {
            let k = i - width;
            assert(column == kept[k]);
            assert(kept.contains(column));
            lemma_filter_contains(right.header, is_not(name), column);
            let j = choose|j: int| 0 <= j < right.header.len() && right.header[j] == column;
            assert(right.numeric_columns.contains(right.header[j]) <==> is_integer_column(
                right.header[j],
            ));
            if left.numeric_columns.contains(column) {
                let q = choose|q: int|
                    0 <= q < left.numeric_columns.len() && left.numeric_columns[q] == column;
                assert(left.header.contains(left.numeric_columns[q]));
                let p = choose|p: int| 0 <= p < left.header.len() && left.header[p] == column;
                assert(is_integer_column(left.header[p]));
            }
        }
    }
    assert forall|r: int, i: int|
        0 <= r < out.rows.len() && 0 <= i < out.header.len() && is_integer_column(
            out.header[i],
        ) implies (#[trigger] out.rows[r][i]) is Int64 by {
        assert(is_joined_row(out.rows[r], left.rows, right.rows, right_index));
        let (a, b) = choose|a: int, b: int|
            #![trigger left.rows[a], right.rows[b]]
            0 <= a < left.rows.len() && 0 <= b < right.rows.len() && out.rows[r] == left.rows[a]
                + right.rows[b].remove(right_index);
        assert(left.rows[a].len() == width);
        assert(right.rows[b].len() == right.header.len());
        if i < width {
            assert(out.rows[r][i] == left.rows[a][i]);
            assert(out.header[i] == left.header[i]);
        } else {
            let k = i - width;
            assert(out.header[i] == right.header.remove(right_index)[k]);
            assert(out.rows[r][i] == right.rows[b].remove(right_index)[k]);
            if k < right_index {
                assert(right.rows[b][k] is Int64);
            } else {
                assert(right.rows[b][k + 1] is Int64);
            }
        }
    }
}

/// Every table that an evaluation produces is typed.
pub proof fn lemma_evaluated_typed(operator: OperatorView, data: DataSetView)
    ensures
        evaluated(operator, data) matches Ok(table) ==> table.typed(),
    decreases operator,
{
    match operator {
        OperatorView::From(dataset) => {
            lemma_loaded_typed(data, dataset, "FROM"@);
        },
        OperatorView::Select { chain, column_names } => {
            lemma_evaluated_typed(*chain, data);
            if let Ok(table) = evaluated(*chain, data) {
                if first_missing(table.header, column_names) is None {
                    lemma_selected_typed(table, column_names);
                }
            }
        },
        OperatorView::Take { chain, count } => {
            lemma_evaluated_typed(*chain, data);
            if let Ok(table) = evaluated(*chain, data) {
                lemma_taken_typed(table, count as nat);
            }
        },
        OperatorView::OrderBy { chain, column } => {
            lemma_evaluated_typed(*chain, data);
            if let Ok(table) = evaluated(*chain, data) {
                if let Some(index) = table.column_index(column) {
                    lemma_ordered_typed(table, index);
                }
            }
        },
        OperatorView::CountBy { chain, column } => {
            lemma_evaluated_typed(*chain, data);
            if let Ok(table) = evaluated(*chain, data) {
                table.header.index_of_first_ensures(column);
                if let Some(index) = table.column_index(column) {
                    lemma_counted_typed(table, column, index);
                }
            }
        },
        OperatorView::Join { chain, right, column } => {
            lemma_evaluated_typed(*chain, data);
            lemma_loaded_typed(data, right, "JOIN"@);
            if let Ok(left) = evaluated(*chain, data) {
                if let Ok(right_table) = loaded(data, right, "JOIN"@) {
                    left.header.index_of_first_ensures(column);
                    right_table.header.index_of_first_ensures(column);
                    if let Some(left_index) = left.column_index(column) {
                        if let Some(right_index) = right_table.column_index(column) {
                            lemma_joined_typed(left, right_table, column, left_index, right_index);
                        }
                    }
                }
            }
        },
    }
}

} // verus!
