//! The operator chain and its evaluation.

use vstd::prelude::*;
use crate::data::Dataset;
use crate::datasets::{DataSet, DataSetView};
use crate::relation::{
    count_rows, first_missing, join_tables, lemma_first_missing, order_rows, select_columns,
    take_rows,
};
use crate::table::{clone_names, contains_name, Table, TableView};
use crate::text::{decimal, join_strings, joined, usize_to_decimal, views};
use crate::typing::{lemma_evaluated_typed, lemma_loaded_typed, lemma_typed_sortable};

verus! {

/// A chain of operators, as a query line describes it. Every operator but
/// `From` works on the table that the chain before it produces.
#[derive(Debug, PartialEq)]
pub enum Operator {
    /// The rows of a dataset.
    From(Dataset),
    /// Some of the columns, in the order asked for.
    Select {
        /// What produces the input.
        chain: Box<Operator>,
        /// The names of the columns to keep.
        column_names: Vec<String>,
    },
    /// The first `count` rows.
    Take {
        /// What produces the input.
        chain: Box<Operator>,
        /// How many rows to keep.
        count: usize,
    },
    /// The rows ordered by a numeric column, largest value first.
    OrderBy {
        /// What produces the input.
        chain: Box<Operator>,
        /// The name of the column to order by.
        column: String,
    },
    /// The distinct values of a column, each with the number of rows that
    /// hold it.
    CountBy {
        /// What produces the input.
        chain: Box<Operator>,
        /// The name of the column to count.
        column: String,
    },
    /// The rows of the input paired with the rows of a dataset that agree
    /// with them on a column.
    Join {
        /// What produces the left table.
        chain: Box<Operator>,
        /// The dataset that is the right table.
        right: Dataset,
        /// The name of the column to join on.
        column: String,
    },
}

/// The mathematical value of an [`Operator`].
pub enum OperatorView {
    From(Dataset),
    Select { chain: Box<OperatorView>, column_names: Seq<Seq<char>> },
    Take { chain: Box<OperatorView>, count: usize },
    OrderBy { chain: Box<OperatorView>, column: Seq<char> },
    CountBy { chain: Box<OperatorView>, column: Seq<char> },
    Join { chain: Box<OperatorView>, right: Dataset, column: Seq<char> },
}

impl View for Operator {
    type V = OperatorView;

    open spec fn view(&self) -> OperatorView
        decreases self,
    {
        match self {
            Operator::From(dataset) => OperatorView::From(*dataset),
            Operator::Select { chain, column_names } => OperatorView::Select {
                chain: Box::new((**chain).view()),
                column_names: views(column_names@),
            },
            Operator::Take { chain, count } => OperatorView::Take {
                chain: Box::new((**chain).view()),
                count: *count,
            },
            Operator::OrderBy { chain, column } => OperatorView::OrderBy {
                chain: Box::new((**chain).view()),
                column: column@,
            },
            Operator::CountBy { chain, column } => OperatorView::CountBy {
                chain: Box::new((**chain).view()),
                column: column@,
            },
            Operator::Join { chain, right, column } => OperatorView::Join {
                chain: Box::new((**chain).view()),
                right: *right,
                column: column@,
            },
        }
    }
}

impl OperatorView {
    /// The chain written as the query line that describes it.
    pub open spec fn text(self) -> Seq<char>
        decreases self,
    {
        match self {
            OperatorView::From(dataset) => "FROM "@ + dataset.name(),
            OperatorView::Select { chain, column_names } => chain.text() + " SELECT "@ + joined(
                column_names,
                seq![','],
            ),
            OperatorView::Take { chain, count } => chain.text() + " TAKE "@ + decimal(
                count as int,
            ),
            OperatorView::OrderBy { chain, column } => chain.text() + " ORDERBY "@ + column,
            OperatorView::CountBy { chain, column } => chain.text() + " COUNTBY "@ + column,
            OperatorView::Join { chain, right, column } => chain.text() + " JOIN "@ + right.name()
                + " "@ + column,
        }
    }
}

impl OperatorView {
    /// Whether the chain names `dataset`, behind `FROM` or behind `JOIN`.
    pub open spec fn uses(self, dataset: Dataset) -> bool
        decreases self,
    {
        match self {
            OperatorView::From(from) => from == dataset,
            OperatorView::Select { chain, .. } => chain.uses(dataset),
            OperatorView::Take { chain, .. } => chain.uses(dataset),
            OperatorView::OrderBy { chain, .. } => chain.uses(dataset),
            OperatorView::CountBy { chain, .. } => chain.uses(dataset),
            OperatorView::Join { chain, right, .. } => right == dataset || chain.uses(dataset),
        }
    }
}

impl Clone for Operator {
    fn clone(&self) -> (r: Self)
        ensures
            r@ == self@,
        decreases self,
    {
        match self {
            Operator::From(dataset) => Operator::From(*dataset),
            Operator::Select { chain, column_names } => Operator::Select {
                chain: Box::new((**chain).clone()),
                column_names: clone_names(column_names),
            },
            Operator::Take { chain, count } => Operator::Take {
                chain: Box::new((**chain).clone()),
                count: *count,
            },
            Operator::OrderBy { chain, column } => Operator::OrderBy {
                chain: Box::new((**chain).clone()),
                column: column.clone(),
            },
            Operator::CountBy { chain, column } => Operator::CountBy {
                chain: Box::new((**chain).clone()),
                column: column.clone(),
            },
            Operator::Join { chain, right, column } => Operator::Join {
                chain: Box::new((**chain).clone()),
                right: *right,
                column: column.clone(),
            },
        }
    }
}

impl Operator {
    /// Whether the chain names `dataset`, behind `FROM` or behind `JOIN`.
    /// The evaluation of the chain looks at no other dataset.
    pub fn uses(&self, dataset: &Dataset) -> (r: bool)
        ensures
            r == self@.uses(*dataset),
        decreases self,
    {
        match self {
            Operator::From(from) => *from == *dataset,
            Operator::Select { chain, .. } => (**chain).uses(dataset),
            Operator::Take { chain, .. } => (**chain).uses(dataset),
            Operator::OrderBy { chain, .. } => (**chain).uses(dataset),
            Operator::CountBy { chain, .. } => (**chain).uses(dataset),
            Operator::Join { chain, right, .. } => *right == *dataset || (**chain).uses(dataset),
        }
    }

    /// The chain written as the query line that describes it.
    pub fn to_string(&self) -> (r: String)
        ensures
            r@ == self@.text(),
        decreases self,
    {
        match self {
            Operator::From(dataset) => {
                let mut out = "FROM ".to_owned();
                out.append(dataset.to_string().as_str());
                out
            },
            Operator::Select { chain, column_names } => {
                proof {
                    reveal_strlit(",");
                    assert(","@ =~= seq![',']);
                }
                let mut out = (**chain).to_string();
                out.append(" SELECT ");
                out.append(join_strings(column_names, ",").as_str());
                out
            },
            Operator::Take { chain, count } => {
                let mut out = (**chain).to_string();
                out.append(" TAKE ");
                out.append(usize_to_decimal(*count).as_str());
                out
            },
            Operator::OrderBy { chain, column } => {
                let mut out = (**chain).to_string();
                out.append(" ORDERBY ");
                out.append(column.as_str());
                out
            },
            Operator::CountBy { chain, column } => {
                let mut out = (**chain).to_string();
                out.append(" COUNTBY ");
                out.append(column.as_str());
                out
            },
            Operator::Join { chain, right, column } => {
                let mut out = (**chain).to_string();
                out.append(" JOIN ");
                out.append(right.to_string().as_str());
                out.append(" ");
                out.append(column.as_str());
                out
            },
        }
    }
}

/// Why a chain could not be evaluated.
#[derive(Debug)]
pub enum OperatorError {
    /// A dataset could not be loaded.
    CSVError {
        /// The dataset that was asked for.
        dataset: Dataset,
        /// The underlying cause, as text.
        error: String,
        /// The operator that asked for the dataset.
        operator: String,
    },
    /// An operator names a column that its input does not have.
    NoSuchColumn {
        /// The operator that names the column.
        operator: String,
        /// The chain that produced the operator's input.
        chain: Box<Operator>,
        /// The name that is no column.
        column_name: String,
    },
    /// The column to order by does not hold numbers.
    OrderByColumnNotNumeric {
        /// The name of the column.
        column_name: String,
    },
}

/// The mathematical value of an [`OperatorError`].
pub enum OperatorErrorView {
    CSVError { dataset: Dataset, error: Seq<char>, operator: Seq<char> },
    NoSuchColumn { operator: Seq<char>, chain: OperatorView, column_name: Seq<char> },
    OrderByColumnNotNumeric { column_name: Seq<char> },
}

impl View for OperatorError {
    type V = OperatorErrorView;

    open spec fn view(&self) -> OperatorErrorView {
        match self {
            OperatorError::CSVError { dataset, error, operator } => OperatorErrorView::CSVError {
                dataset: *dataset,
                error: error@,
                operator: operator@,
            },
            OperatorError::NoSuchColumn {
                operator,
                chain,
                column_name,
            } => OperatorErrorView::NoSuchColumn {
                operator: operator@,
                chain: (**chain).view(),
                column_name: column_name@,
            },
            OperatorError::OrderByColumnNotNumeric {
                column_name,
            } => OperatorErrorView::OrderByColumnNotNumeric { column_name: column_name@ },
        }
    }
}

impl OperatorErrorView {
    /// The message that tells a user what went wrong.
    pub open spec fn text(self) -> Seq<char> {
        match self {
            OperatorErrorView::CSVError { dataset, error, operator } => "Failed to load the "@
                + dataset.name() + " dataset while processing the "@ + operator
                + " command. Error encountered: "@ + error,
            OperatorErrorView::NoSuchColumn { operator, chain, column_name } =>
                "Could not find the "@ + column_name + " column to "@ + operator
                    + " on the table produced by this operator chain: "@ + chain.text(),
            OperatorErrorView::OrderByColumnNotNumeric { column_name } =>
                "You attempted to ORDERBY the "@ + column_name
                    + " column whose type is not numeric."@,
        }
    }
}

impl OperatorError {
    /// The message that tells a user what went wrong.
    pub fn to_string(&self) -> (r: String)
        ensures
            r@ == self@.text(),
    {
        match self {
            OperatorError::CSVError { dataset, error, operator } => {
                let mut out = "Failed to load the ".to_owned();
                out.append(dataset.to_string().as_str());
                out.append(" dataset while processing the ");
                out.append(operator.as_str());
                out.append(" command. Error encountered: ");
                out.append(error.as_str());
                out
            },
            OperatorError::NoSuchColumn { operator, chain, column_name } => {
                let mut out = "Could not find the ".to_owned();
                out.append(column_name.as_str());
                out.append(" column to ");
                out.append(operator.as_str());
                out.append(" on the table produced by this operator chain: ");
                out.append((**chain).to_string().as_str());
                out
            },
            OperatorError::OrderByColumnNotNumeric { column_name } => {
                let mut out = "You attempted to ORDERBY the ".to_owned();
                out.append(column_name.as_str());
                out.append(" column whose type is not numeric.");
                out
            },
        }
    }
}

/// The table that loading `dataset` gives, or the error that says that
/// `operator` could not load it.
pub open spec fn loaded(data: DataSetView, dataset: Dataset, operator: Seq<char>) -> Result<
    TableView,
    OperatorErrorView,
> {
    match data.rows(dataset) {
        Ok(rows) => Ok(
            TableView { header: dataset.columns(), numeric_columns: dataset.numeric(), rows },
        ),
        Err(cause) => Err(OperatorErrorView::CSVError { dataset, error: cause, operator }),
    }
}

/// What evaluating a chain over the loaded datasets gives: the table, or the
/// first error met on the way from the innermost operator outwards.
pub open spec fn evaluated(operator: OperatorView, data: DataSetView) -> Result<
    TableView,
    OperatorErrorView,
>
    decreases operator,
{
    match operator {
        OperatorView::From(dataset) => loaded(data, dataset, "FROM"@),
        OperatorView::Select { chain, column_names } => match evaluated(*chain, data) {
            Err(e) => Err(e),
            Ok(table) => match first_missing(table.header, column_names) {
                Some(name) => Err(
                    OperatorErrorView::NoSuchColumn {
                        operator: "Select"@,
                        chain: *chain,
                        column_name: name,
                    },
                ),
                None => Ok(table.selected(column_names)),
            },
        },
        OperatorView::Take { chain, count } => match evaluated(*chain, data) {
            Err(e) => Err(e),
            Ok(table) => Ok(table.taken(count as nat)),
        },
        OperatorView::OrderBy { chain, column } => match evaluated(*chain, data) {
            Err(e) => Err(e),
            Ok(table) => if !table.numeric_columns.contains(column) {
                Err(OperatorErrorView::OrderByColumnNotNumeric { column_name: column })
            } else {
                match table.column_index(column) {
                    None => Err(
                        OperatorErrorView::NoSuchColumn {
                            operator: "ORDERBY"@,
                            chain: *chain,
                            column_name: column,
                        },
                    ),
                    Some(index) => Ok(table.ordered(index)),
                }
            },
        },
        OperatorView::CountBy { chain, column } => match evaluated(*chain, data) {
            Err(e) => Err(e),
            Ok(table) => match table.column_index(column) {
                None => Err(
                    OperatorErrorView::NoSuchColumn {
                        operator: "COUNTBY"@,
                        chain: *chain,
                        column_name: column,
                    },
                ),
                Some(index) => Ok(table.counted(column, index)),
            },
        },
        OperatorView::Join { chain, right, column } => match evaluated(*chain, data) {
            Err(e) => Err(e),
            Ok(left) => match loaded(data, right, "JOIN"@) {
                Err(e) => Err(e),
                Ok(right_table) => match (
                    left.column_index(column),
                    right_table.column_index(column),
                ) {
                    (Some(left_index), Some(right_index)) => Ok(
                        left.joined_with(right_table, column, left_index, right_index),
                    ),
                    _ => Err(
                        OperatorErrorView::NoSuchColumn {
                            operator: "JOIN"@,
                            chain: *chain,
                            column_name: column,
                        },
                    ),
                },
            },
        },
    }
}

/// The mathematical value of what an evaluation returned.
pub open spec fn outcome(r: Result<Table, OperatorError>) -> Result<TableView, OperatorErrorView> {
    match r {
        Ok(table) => Ok(table@),
        Err(e) => Err(e@),
    }
}

/// Loads `dataset` as a table with the dataset's columns. `operator` names
/// the operator that asks, for the error.
pub fn load_dataset(dataset: &Dataset, operator: &str, data: &DataSet) -> (r: Result<
    Table,
    OperatorError,
>)
    ensures
        outcome(r) == loaded(data@, *dataset, operator@),
        r matches Ok(table) ==> table@.typed(),
{
    proof {
        lemma_loaded_typed(data@, *dataset, operator@);
    }
    match data.rows(dataset) {
        Ok(rows) => Ok(
            Table {
                header: dataset.column_names(),
                numeric_columns: dataset.numeric_columns(),
                rows,
            },
        ),
        Err(e) => Err(
            OperatorError::CSVError {
                dataset: *dataset,
                error: e.cause,
                operator: operator.to_owned(),
            },
        ),
    }
}

/// Evaluates `FROM dataset`.
pub fn process_from(dataset: &Dataset, data: &DataSet) -> (r: Result<Table, OperatorError>)
    ensures
        outcome(r) == evaluated(OperatorView::From(*dataset), data@),
        r matches Ok(table) ==> table@.typed(),
{
    load_dataset(dataset, "FROM", data)
}

/// The index of the first column of `table` called `name`, or the error
/// that says that `current_operator`, applied to what `chain` produced,
/// found no such column.
pub fn find_column_index(
    table: &Table,
    name: &str,
    chain: &Box<Operator>,
    current_operator: &str,
) -> (r: Result<usize, OperatorError>)
    ensures
        match r {
            Ok(index) => table@.column_index(name@) == Some(index as int) && index
                < table@.header.len() && table@.header[index as int] == name@,
            Err(e) => table@.column_index(name@) is None && e@
                == (OperatorErrorView::NoSuchColumn {
                operator: current_operator@,
                chain: chain@,
                column_name: name@,
            }),
        },
        r is Ok <==> table@.header.contains(name@),
{
    match table.find_column_index_by_name(name) {
        Some(index) => Ok(index),
        None => Err(
            OperatorError::NoSuchColumn {
                operator: current_operator.to_owned(),
                chain: Box::new((**chain).clone()),
                column_name: name.to_owned(),
            },
        ),
    }
}

/// Evaluates `chain SELECT column_names`.
pub fn process_select(chain: &Box<Operator>, column_names: &Vec<String>, data: &DataSet) -> (r:
    Result<Table, OperatorError>)
    ensures
        outcome(r) == evaluated(
            OperatorView::Select { chain: Box::new(chain@), column_names: views(column_names@) },
            data@,
        ),
        r matches Ok(table) ==> table@.typed(),
    decreases **chain, 1nat,
{
    proof {
        lemma_evaluated_typed(
            OperatorView::Select { chain: Box::new(chain@), column_names: views(column_names@) },
            data@,
        );
    }
    let table = match process_operator(&**chain, data) {
        Ok(table) => table,
        Err(e) => {
            return Err(e);
        },
    };
    let mut col_indices: Vec<usize> = Vec::new();
    let mut i: usize = 0;
    while i < column_names.len()
        invariant
            i <= column_names.len(),
            col_indices.len() == i,
            evaluated(chain@, data@) == Ok::<TableView, OperatorErrorView>(table@),
            forall|k: int|
                0 <= k < i ==> table@.column_index(#[trigger] column_names@[k]@) == Some(
                    col_indices[k] as int,
                ),
            forall|k: int| 0 <= k < i ==> table@.header.contains(#[trigger] views(column_names@)[k]),
        decreases column_names.len() - i,
    {
        match find_column_index(&table, column_names[i].as_str(), chain, "Select") {
            Ok(index) => {
                col_indices.push(index);
            },
            Err(e) => {
                proof {
                    lemma_first_missing(table@.header, views(column_names@), i as int);
                }
                return Err(e);
            },
        }
        i = i + 1;
    }
    proof {
        lemma_first_missing(table@.header, views(column_names@), i as int);
    }
    Ok(select_columns(&table, column_names, &col_indices))
}

/// Evaluates `chain TAKE count`.
pub fn process_take(chain: &Box<Operator>, count: usize, data: &DataSet) -> (r: Result<
    Table,
    OperatorError,
>)
    ensures
        outcome(r) == evaluated(OperatorView::Take { chain: Box::new(chain@), count }, data@),
        r matches Ok(table) ==> table@.typed(),
    decreases **chain, 1nat,
{
    proof {
        lemma_evaluated_typed(OperatorView::Take { chain: Box::new(chain@), count }, data@);
    }
    match process_operator(&**chain, data) {
        Ok(table) => Ok(take_rows(table, count)),
        Err(e) => Err(e),
    }
}

/// Evaluates `chain ORDERBY column`.
pub fn process_orderby(chain: &Box<Operator>, column: String, data: &DataSet) -> (r: Result<
    Table,
    OperatorError,
>)
    ensures
        outcome(r) == evaluated(
            OperatorView::OrderBy { chain: Box::new(chain@), column: column@ },
            data@,
        ),
        r matches Ok(table) ==> table@.typed(),
    decreases **chain, 1nat,
{
    proof {
        lemma_evaluated_typed(
            OperatorView::OrderBy { chain: Box::new(chain@), column: column@ },
            data@,
        );
    }
    let table = match process_operator(&**chain, data) {
        Ok(table) => table,
        Err(e) => {
            return Err(e);
        },
    };
    if !contains_name(&table.numeric_columns, column.as_str()) {
        return Err(OperatorError::OrderByColumnNotNumeric { column_name: column });
    }
    let col_index = match find_column_index(&table, column.as_str(), chain, "ORDERBY") {
        Ok(index) => index,
        Err(e) => {
            return Err(e);
        },
    };
    proof {
        lemma_typed_sortable(table@, col_index as int);
    }
    Ok(order_rows(table, col_index))
}

/// Evaluates `chain COUNTBY column`.
pub fn process_countby(chain: &Box<Operator>, column: String, data: &DataSet) -> (r: Result<
    Table,
    OperatorError,
>)
    ensures
        outcome(r) == evaluated(
            OperatorView::CountBy { chain: Box::new(chain@), column: column@ },
            data@,
        ),
        r matches Ok(table) ==> table@.typed(),
    decreases **chain, 1nat,
{
    proof {
        lemma_evaluated_typed(
            OperatorView::CountBy { chain: Box::new(chain@), column: column@ },
            data@,
        );
    }
    let table = match process_operator(&**chain, data) {
        Ok(table) => table,
        Err(e) => {
            return Err(e);
        },
    };
    let col_index = match find_column_index(&table, column.as_str(), chain, "COUNTBY") {
        Ok(index) => index,
        Err(e) => {
            return Err(e);
        },
    };
    Ok(count_rows(&table, column.as_str(), col_index))
}

/// Evaluates `chain JOIN dataset column`.
pub fn process_join(chain: &Box<Operator>, dataset: &Dataset, column: String, data: &DataSet) -> (r:
    Result<Table, OperatorError>)
    ensures
        outcome(r) == evaluated(
            OperatorView::Join { chain: Box::new(chain@), right: *dataset, column: column@ },
            data@,
        ),
        r matches Ok(table) ==> table@.typed(),
    decreases **chain, 1nat,
{
    proof {
        lemma_evaluated_typed(
            OperatorView::Join { chain: Box::new(chain@), right: *dataset, column: column@ },
            data@,
        );
    }
    let left = match process_operator(&**chain, data) {
        Ok(table) => table,
        Err(e) => {
            return Err(e);
        },
    };
    let right = match load_dataset(dataset, "JOIN", data) {
        Ok(table) => table,
        Err(e) => {
            return Err(e);
        },
    };
    match (
        left.find_column_index_by_name(column.as_str()),
        right.find_column_index_by_name(column.as_str()),
    ) {
        (Some(left_index), Some(right_index)) => Ok(
            join_tables(&left, &right, column.as_str(), left_index, right_index),
        ),
        _ => Err(
            OperatorError::NoSuchColumn {
                operator: "JOIN".to_owned(),
                chain: Box::new((**chain).clone()),
                column_name: column,
            },
        ),
    }
}

/// Evaluates a chain over the loaded datasets: the table it describes, or
/// the first error met.
pub fn process_operator(operator: &Operator, data: &DataSet) -> (r: Result<Table, OperatorError>)
    ensures
        outcome(r) == evaluated(operator@, data@),
        r matches Ok(table) ==> table@.typed(),
    decreases operator, 0nat,
{
    match operator {
        Operator::From(dataset) => process_from(dataset, data),
        Operator::Select { chain, column_names } => process_select(chain, column_names, data),
        Operator::Take { chain, count } => process_take(chain, *count, data),
        Operator::OrderBy { chain, column } => process_orderby(chain, column.clone(), data),
        Operator::CountBy { chain, column } => process_countby(chain, column.clone(), data),
        Operator::Join { chain, right, column } => process_join(
            chain,
            right,
            column.clone(),
            data,
        ),
    }
}

} // verus!
