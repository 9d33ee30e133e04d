//! A query engine over three fixed datasets: cities, countries and languages.
//!
//! A query line such as `FROM city.csv ORDERBY CityPop TAKE 10` is read by
//! [`commands::parse_command`] into a chain of operators, and
//! [`operators::process_operator`] evaluates the chain over the loaded
//! datasets into a table, or into an error that says what is wrong with it.
//!
//! The contracts speak of the mathematical values of the data: a table is
//! its header, its numeric columns and its rows of cells
//! ([`table::TableView`]), a chain is a term ([`operators::OperatorView`]),
//! and [`operators::evaluated`] says what a chain gives. What holds of every
//! evaluation is proved in [`laws`].
//!
//! The library reads no files. Whoever calls it loads the datasets and hands
//! them over as a [`datasets::DataSet`].

pub mod commands;
pub mod data;
pub mod datasets;
pub mod facts;
pub mod laws;
pub mod operators;
pub mod relation;
pub mod sort;
pub mod table;
pub mod text;
pub mod typing;
