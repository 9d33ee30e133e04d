//! The three datasets: their names, their schemas and their records.

use vstd::prelude::*;
use vstd::std_specs::convert::FromSpecImpl;
use crate::table::{row_text, Cell, CellView, Row};
use crate::text::views;

verus! {

/// The datasets that a query can name.
#[derive(Debug, Clone, Copy, PartialEq, Eq, Structural)]
pub enum Dataset {
    /// city.csv
    City,
    /// country.csv
    Country,
    /// language.csv
    Language,
}

impl Dataset {
    /// The file name by which a query refers to the dataset.
    pub open spec fn name(self) -> Seq<char> {
        match self {
            Dataset::City => "city.csv"@,
            Dataset::Country => "country.csv"@,
            Dataset::Language => "language.csv"@,
        }
    }

    /// The column names of the dataset, in order.
    pub open spec fn columns(self) -> Seq<Seq<char>> {
        match self {
            Dataset::City => seq!["CityID"@, "CityName"@, "CountryCode"@, "CityPop"@],
            Dataset::Country => seq![
                "CountryCode"@,
                "CountryName"@,
                "Continent"@,
                "CountryPop"@,
                "Capital"@,
            ],
            Dataset::Language => seq!["CountryCode"@, "Language"@],
        }
    }

    /// The names of the columns of the dataset that can be ordered by.
    pub open spec fn numeric(self) -> Seq<Seq<char>> {
        match self {
            Dataset::City => seq!["CityID"@, "CityPop"@],
            Dataset::Country => seq!["CountryPop"@],
            Dataset::Language => Seq::empty(),
        }
    }

    /// The file name by which a query refers to the dataset.
    pub fn to_string(&self) -> (r: String)
        ensures
            r@ == self.name(),
    {
        match self {
            Dataset::City => "city.csv".to_owned(),
            Dataset::Country => "country.csv".to_owned(),
            Dataset::Language => "language.csv".to_owned(),
        }
    }

    /// The column names of the dataset, in order.
    pub fn column_names(&self) -> (r: Vec<String>)
        ensures
            views(r@) == self.columns(),
    {
        match self {
            Dataset::City => City::column_names(),
            Dataset::Country => Country::column_names(),
            Dataset::Language => Language::column_names(),
        }
    }

    /// The names of the columns of the dataset that can be ordered by.
    pub fn numeric_columns(&self) -> (r: Vec<String>)
        ensures
            views(r@) == self.numeric(),
    {
        match self {
            Dataset::City => City::numeric_columns(),
            Dataset::Country => Country::numeric_columns(),
            Dataset::Language => Language::numeric_columns(),
        }
    }
}

/// One record of the country dataset.
#[derive(Debug, PartialEq)]
#[allow(non_snake_case)]
pub struct Country {
    pub CountryCode: String,
    pub CountryName: String,
    pub Continent: String,
    pub CountryPop: i64,
    pub Capital: Option<i64>,
}

/// The mathematical value of a [`Country`].
#[allow(non_snake_case)]
pub struct CountryView {
    pub CountryCode: Seq<char>,
    pub CountryName: Seq<char>,
    pub Continent: Seq<char>,
    pub CountryPop: i64,
    pub Capital: Option<i64>,
}

impl View for Country {
    type V = CountryView;

    open spec fn view(&self) -> CountryView {
        CountryView {
            CountryCode: self.CountryCode@,
            CountryName: self.CountryName@,
            Continent: self.Continent@,
            CountryPop: self.CountryPop,
            Capital: self.Capital,
        }
    }
}

impl CountryView {
    /// The record as a row of the country table.
    pub open spec fn row(self) -> Seq<CellView> {
        seq![
            CellView::String(self.CountryCode),
            CellView::String(self.CountryName),
            CellView::String(self.Continent),
            CellView::Int64(self.CountryPop),
            CellView::OptInt64(self.Capital),
        ]
    }
}

impl Clone for Country {
    fn clone(&self) -> (r: Self)
        ensures
            r@ == self@,
    {
        Country {
            CountryCode: self.CountryCode.clone(),
            CountryName: self.CountryName.clone(),
            Continent: self.Continent.clone(),
            CountryPop: self.CountryPop,
            Capital: self.Capital,
        }
    }
}

impl Country {
    /// The column names of the country dataset.
    pub fn column_names() -> (r: Vec<String>)
        ensures
            views(r@) == Dataset::Country.columns(),
    {
        let r = vec![
            "CountryCode".to_owned(),
            "CountryName".to_owned(),
            "Continent".to_owned(),
            "CountryPop".to_owned(),
            "Capital".to_owned(),
        ];
        assert(views(r@) =~= Dataset::Country.columns());
        r
    }

    /// The names of the columns of the country dataset that can be ordered
    /// by.
    pub fn numeric_columns() -> (r: Vec<String>)
        ensures
            views(r@) == Dataset::Country.numeric(),
    {
        let r = vec!["CountryPop".to_owned()];
        assert(views(r@) =~= Dataset::Country.numeric());
        r
    }

    /// The record as a row of the country table.
    pub fn into_row(self) -> (r: Row)
        ensures
            r@ == self@.row(),
    {
        let r = Row {
            cells: vec![
                Cell::String(self.CountryCode),
                Cell::String(self.CountryName),
                Cell::String(self.Continent),
                Cell::Int64(self.CountryPop),
                Cell::OptInt64(self.Capital),
            ],
        };
        assert(r@ =~= self@.row());
        r
    }

    /// The record as one line of text, its fields separated by commas.
    pub fn to_string(&self) -> (r: String)
        ensures
            r@ == row_text(self@.row()),
    {
        self.clone().into_row().join()
    }
}

/// One record of the city dataset.
#[derive(Debug, PartialEq)]
#[allow(non_snake_case)]
pub struct City {
    pub CityID: i64,
    pub CityName: String,
    pub CountryCode: String,
    pub CityPop: i64,
}

/// The mathematical value of a [`City`].
#[allow(non_snake_case)]
pub struct CityView {
    pub CityID: i64,
    pub CityName: Seq<char>,
    pub CountryCode: Seq<char>,
    pub CityPop: i64,
}

impl View for City {
    type V = CityView;

    open spec fn view(&self) -> CityView {
        CityView {
            CityID: self.CityID,
            CityName: self.CityName@,
            CountryCode: self.CountryCode@,
            CityPop: self.CityPop,
        }
    }
}

impl CityView {
    /// The record as a row of the city table.
    pub open spec fn row(self) -> Seq<CellView> {
        seq![
            CellView::Int64(self.CityID),
            CellView::String(self.CityName),
            CellView::String(self.CountryCode),
            CellView::Int64(self.CityPop),
        ]
    }
}

impl Clone for City {
    fn clone(&self) -> (r: Self)
        ensures
            r@ == self@,
    {
        City {
            CityID: self.CityID,
            CityName: self.CityName.clone(),
            CountryCode: self.CountryCode.clone(),
            CityPop: self.CityPop,
        }
    }
}

impl City {
    /// The column names of the city dataset.
    pub fn column_names() -> (r: Vec<String>)
        ensures
            views(r@) == Dataset::City.columns(),
    {
        let r = vec![
            "CityID".to_owned(),
            "CityName".to_owned(),
            "CountryCode".to_owned(),
            "CityPop".to_owned(),
        ];
        assert(views(r@) =~= Dataset::City.columns());
        r
    }

    /// The names of the columns of the city dataset that can be ordered by.
    pub fn numeric_columns() -> (r: Vec<String>)
        ensures
            views(r@) == Dataset::City.numeric(),
    {
        let r = vec!["CityID".to_owned(), "CityPop".to_owned()];
        assert(views(r@) =~= Dataset::City.numeric());
        r
    }

    /// The record as a row of the city table.
    pub fn into_row(self) -> (r: Row)
        ensures
            r@ == self@.row(),
    {
        let r = Row {
            cells: vec![
                Cell::Int64(self.CityID),
                Cell::String(self.CityName),
                Cell::String(self.CountryCode),
                Cell::Int64(self.CityPop),
            ],
        };
        assert(r@ =~= self@.row());
        r
    }

    /// The record as one line of text, its fields separated by commas.
    pub fn to_string(&self) -> (r: String)
        ensures
            r@ == row_text(self@.row()),
    {
        self.clone().into_row().join()
    }
}

/// One record of the language dataset.
#[derive(Debug, PartialEq)]
#[allow(non_snake_case)]
pub struct Language {
    pub CountryCode: String,
    pub Language: String,
}

/// The mathematical value of a [`Language`].
#[allow(non_snake_case)]
pub struct LanguageView {
    pub CountryCode: Seq<char>,
    pub Language: Seq<char>,
}

impl View for Language {
    type V = LanguageView;

    open spec fn view(&self) -> LanguageView {
        LanguageView { CountryCode: self.CountryCode@, Language: self.Language@ }
    }
}

impl LanguageView {
    /// The record as a row of the language table.
    pub open spec fn row(self) -> Seq<CellView> {
        seq![CellView::String(self.CountryCode), CellView::String(self.Language)]
    }
}

impl Clone for Language {
    fn clone(&self) -> (r: Self)
        ensures
            r@ == self@,
    {
        Language { CountryCode: self.CountryCode.clone(), Language: self.Language.clone() }
    }
}

impl Language {
    /// The column names of the language dataset.
    pub fn column_names() -> (r: Vec<String>)
        ensures
            views(r@) == Dataset::Language.columns(),
    {
        let r = vec!["CountryCode".to_owned(), "Language".to_owned()];
        assert(views(r@) =~= Dataset::Language.columns());
        r
    }

    /// The names of the columns of the language dataset that can be ordered
    /// by: there is none.
    pub fn numeric_columns() -> (r: Vec<String>)
        ensures
            views(r@) == Dataset::Language.numeric(),
    {
        let r: Vec<String> = Vec::new();
        assert(views(r@) =~= Dataset::Language.numeric());
        r
    }

    /// The record as a row of the language table.
    pub fn into_row(self) -> (r: Row)
        ensures
            r@ == self@.row(),
    {
        let r = Row { cells: vec![Cell::String(self.CountryCode), Cell::String(self.Language)] };
        assert(r@ =~= self@.row());
        r
    }

    /// The record as one line of text, its fields separated by commas.
    pub fn to_string(&self) -> (r: String)
        ensures
            r@ == row_text(self@.row()),
    {
        self.clone().into_row().join()
    }
}

impl From<Country> for Row {
    /// The record as a row of the country table.
    fn from(record: Country) -> (r: Row)
        ensures
            r@ == record@.row(),
    {
        record.into_row()
    }
}

impl FromSpecImpl<Country> for Row {
    /// A row holds a vector, which no specification can build: the contract
    /// of `from` says what the row holds.
    open spec fn obeys_from_spec() -> bool {
        false
    }

    open spec fn from_spec(record: Country) -> Row {
        arbitrary()
    }
}

impl From<City> for Row {
    /// The record as a row of the city table.
    fn from(record: City) -> (r: Row)
        ensures
            r@ == record@.row(),
    {
        record.into_row()
    }
}

impl FromSpecImpl<City> for Row {
    /// A row holds a vector, which no specification can build: the contract
    /// of `from` says what the row holds.
    open spec fn obeys_from_spec() -> bool {
        false
    }

    open spec fn from_spec(record: City) -> Row {
        arbitrary()
    }
}

impl From<Language> for Row {
    /// The record as a row of the language table.
    fn from(record: Language) -> (r: Row)
        ensures
            r@ == record@.row(),
    {
        record.into_row()
    }
}

impl FromSpecImpl<Language> for Row {
    /// A row holds a vector, which no specification can build: the contract
    /// of `from` says what the row holds.
    open spec fn obeys_from_spec() -> bool {
        false
    }

    open spec fn from_spec(record: Language) -> Row {
        arbitrary()
    }
}

} // verus!
