//! The loaded datasets, as the evaluator receives them.

use vstd::prelude::*;
use crate::data::{City, CityView, Country, CountryView, Dataset, Language, LanguageView};
use crate::table::{CellView, Row};

verus! {

/// Why a dataset could not be loaded.
#[derive(Debug)]
pub struct LoadError {
    /// The underlying cause, as text.
    pub cause: String,
}

impl Clone for LoadError {
    fn clone(&self) -> (r: Self)
        ensures
            r.cause@ == self.cause@,
    {
        LoadError { cause: self.cause.clone() }
    }
}

/// What loading each of the three datasets gave: its records, or the reason
/// why there are none.
#[derive(Debug)]
pub struct DataSet {
    /// The records of the country dataset.
    pub countries: Result<Vec<Country>, LoadError>,
    /// The records of the city dataset.
    pub cities: Result<Vec<City>, LoadError>,
    /// The records of the language dataset.
    pub languages: Result<Vec<Language>, LoadError>,
}

/// The mathematical value of a [`DataSet`].
pub struct DataSetView {
    pub countries: Result<Seq<CountryView>, Seq<char>>,
    pub cities: Result<Seq<CityView>, Seq<char>>,
    pub languages: Result<Seq<LanguageView>, Seq<char>>,
}

impl View for DataSet {
    type V = DataSetView;

    open spec fn view(&self) -> DataSetView {
        DataSetView {
            countries: match self.countries {
                Ok(records) => Ok(records@.map_values(|c: Country| c@)),
                Err(e) => Err(e.cause@),
            },
            cities: match self.cities {
                Ok(records) => Ok(records@.map_values(|c: City| c@)),
                Err(e) => Err(e.cause@),
            },
            languages: match self.languages {
                Ok(records) => Ok(records@.map_values(|l: Language| l@)),
                Err(e) => Err(e.cause@),
            },
        }
    }
}

impl DataSetView {
    /// The rows of `dataset`, or the reason why it has none.
    pub open spec fn rows(self, dataset: Dataset) -> Result<Seq<Seq<CellView>>, Seq<char>> {
        match dataset {
            Dataset::City => match self.cities {
                Ok(records) => Ok(records.map_values(|c: CityView| c.row())),
                Err(cause) => Err(cause),
            },
            Dataset::Country => match self.countries {
                Ok(records) => Ok(records.map_values(|c: CountryView| c.row())),
                Err(cause) => Err(cause),
            },
            Dataset::Language => match self.languages {
                Ok(records) => Ok(records.map_values(|l: LanguageView| l.row())),
                Err(cause) => Err(cause),
            },
        }
    }
}

impl DataSet {
    /// Puts together what loading the three datasets gave.
    pub fn new(
        countries: Result<Vec<Country>, LoadError>,
        cities: Result<Vec<City>, LoadError>,
        languages: Result<Vec<Language>, LoadError>,
    ) -> (r: Self)
        ensures
            r.countries == countries,
            r.cities == cities,
            r.languages == languages,
    {
        DataSet { countries, cities, languages }
    }

    /// The rows of `dataset`, or the reason why it has none.
    pub fn rows(&self, dataset: &Dataset) -> (r: Result<Vec<Row>, LoadError>)
        ensures
            match r {
                Ok(rows) => self@.rows(*dataset) == Ok::<Seq<Seq<CellView>>, Seq<char>>(
                    rows@.map_values(|row: Row| row@),
                ),
                Err(e) => self@.rows(*dataset) == Err::<Seq<Seq<CellView>>, Seq<char>>(e.cause@),
            },
    {
        match dataset {
            Dataset::City => match &self.cities {
                Ok(records) => {
                    let mut rows: Vec<Row> = Vec::new();
                    let mut i: usize = 0;
                    while i < records.len()
                        invariant
                            i <= records.len(),
                            rows.len() == i,
                            forall|j: int| 0 <= j < i ==> rows@[j]@ == records@[j]@.row(),
                        decreases records.len() - i,
                    {
                        rows.push(records[i].clone().into_row());
                        i = i + 1;
                    }
                    assert(rows@.map_values(|row: Row| row@) =~= records@.map_values(
                        |c: City| c@,
                    ).map_values(|c: CityView| c.row()));
                    Ok(rows)
                },
                Err(e) => Err(e.clone()),
            },
            Dataset::Country => match &self.countries {
                Ok(records) => {
                    let mut rows: Vec<Row> = Vec::new();
                    let mut i: usize = 0;
                    while i < records.len()
                        invariant
                            i <= records.len(),
                            rows.len() == i,
                            forall|j: int| 0 <= j < i ==> rows@[j]@ == records@[j]@.row(),
                        decreases records.len() - i,
                    {
                        rows.push(records[i].clone().into_row());
                        i = i + 1;
                    }
                    assert(rows@.map_values(|row: Row| row@) =~= records@.map_values(
                        |c: Country| c@,
                    ).map_values(|c: CountryView| c.row()));
                    Ok(rows)
                },
                Err(e) => Err(e.clone()),
            },
            Dataset::Language => match &self.languages {
                Ok(records) => {
                    let mut rows: Vec<Row> = Vec::new();
                    let mut i: usize = 0;
                    while i < records.len()
                        invariant
                            i <= records.len(),
                            rows.len() == i,
                            forall|j: int| 0 <= j < i ==> rows@[j]@ == records@[j]@.row(),
                        decreases records.len() - i,
                    {
                        rows.push(records[i].clone().into_row());
                        i = i + 1;
                    }
                    assert(rows@.map_values(|row: Row| row@) =~= records@.map_values(
                        |l: Language| l@,
                    ).map_values(|l: LanguageView| l.row()));
                    Ok(rows)
                },
                Err(e) => Err(e.clone()),
            },
        }
    }
}

} // verus!
