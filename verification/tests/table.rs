use toy_query_engine::data::{City, Country, Dataset, Language};
use toy_query_engine::table::{clone_names, contains_name, Cell, Row, Table};

/// Test Row::join for a row with an OptInt64 Col.
#[test]
fn test_row_join_without_opt() {
    let row = Row {
        cells: vec![
            Cell::String("Hello".to_string()),
            Cell::String("World".to_string()),
            Cell::Int64(15),
            Cell::Int64(-15),
            Cell::OptInt64(Some(15)),
            Cell::OptInt64(Some(-15)),
        ],
    };
    assert_eq!(row.join(), String::from("Hello,World,15,-15,15,-15"))
}

/// Test Row::join for a row with an OptInt64 Col.
#[test]
fn test_row_join_with_opt() {
    let row = Row {
        cells: vec![
            Cell::String("Hello".to_string()),
            Cell::String("World".to_string()),
            Cell::Int64(15),
            Cell::Int64(-15),
            Cell::OptInt64(Some(15)),
            Cell::OptInt64(Some(-15)),
            Cell::OptInt64(None),
        ],
    };
    assert_eq!(row.join(), String::from("Hello,World,15,-15,15,-15,"))
}

/// Test find_column_index_by_name for names that do exist in the table.
#[test]
fn test_find_column_index_by_name_exists() {
    let table = Table {
        header: vec![
            "H1".to_string(),
            "H2".to_string(),
            "H3".to_string(),
            "H4".to_string(),
        ],
        numeric_columns: vec![],
        rows: vec![],
    };
    assert_eq!(table.find_column_index_by_name("H1"), Some(0));
    assert_eq!(table.find_column_index_by_name("H2"), Some(1));
    assert_eq!(table.find_column_index_by_name("H3"), Some(2));
    assert_eq!(table.find_column_index_by_name("H4"), Some(3));
}

/// Test find_column_index_by_name for names that do not exist in the table.
#[test]
fn test_find_column_index_by_name_does_not_exist() {
    let table = Table {
        header: vec![
            "H1".to_string(),
            "H2".to_string(),
            "H3".to_string(),
            "H4".to_string(),
        ],
        numeric_columns: vec![],
        rows: vec![],
    };
    assert_eq!(table.find_column_index_by_name("H"), None);
    assert_eq!(table.find_column_index_by_name("H12"), None);
    assert_eq!(table.find_column_index_by_name("H31"), None);
    assert_eq!(table.find_column_index_by_name("H44"), None);
}

/// Test find_column_index_by_name for names that exist in a table with duplicate header entries.
#[test]
fn test_find_column_index_by_name_duplicates() {
    let table = Table {
        header: vec![
            "H1".to_string(),
            "H2".to_string(),
            "H1".to_string(),
            "H2".to_string(),
        ],
        numeric_columns: vec![],
        rows: vec![],
    };
    assert_eq!(table.find_column_index_by_name("H1"), Some(0));
    assert_eq!(table.find_column_index_by_name("H2"), Some(1));
    assert_eq!(table.find_column_index_by_name("H1"), Some(0));
    assert_eq!(table.find_column_index_by_name("H2"), Some(1));
}

/// A row without cells is an empty line; one cell has no comma.
#[test]
fn row_join_few_cells() {
    assert_eq!(Row { cells: vec![] }.join(), String::new());
    assert_eq!(Row { cells: vec![Cell::Int64(0)] }.join(), "0".to_string());
    assert_eq!(
        Row { cells: vec![Cell::OptInt64(None), Cell::OptInt64(None)] }.join(),
        ",".to_string()
    );
}

/// The largest and the smallest integer are written out in full.
#[test]
fn cell_to_string_extremes() {
    assert_eq!(Cell::Int64(i64::MAX).to_string(), "9223372036854775807");
    assert_eq!(Cell::Int64(i64::MIN).to_string(), "-9223372036854775808");
    assert_eq!(Cell::OptInt64(Some(i64::MIN)).to_string(), "-9223372036854775808");
    assert_eq!(Cell::Int64(-1).to_string(), "-1");
    assert_eq!(Cell::Int64(10).to_string(), "10");
    assert_eq!(Cell::Int64(1000).to_string(), "1000");
    assert_eq!(Cell::OptInt64(None).to_string(), "");
    assert_eq!(Cell::String("a,b".to_string()).to_string(), "a,b");
}

/// Integers print as `i64` prints them.
#[test]
fn cell_to_string_agrees_with_i64() {
    let mut value: i64 = 1;
    for step in 0..62 {
        for v in [value, -value, value - 1, -(value - 1), value + step] {
            assert_eq!(Cell::Int64(v).to_string(), format!("{}", v));
        }
        value *= 2;
    }
}

/// Cells are equal when the variant and the value are.
#[test]
fn cell_equality() {
    assert!(Cell::Int64(5) == Cell::Int64(5));
    assert!(Cell::Int64(5) != Cell::Int64(6));
    assert!(Cell::Int64(5) != Cell::OptInt64(Some(5)));
    assert!(Cell::OptInt64(Some(5)) == Cell::OptInt64(Some(5)));
    assert!(Cell::OptInt64(None) == Cell::OptInt64(None));
    assert!(Cell::OptInt64(None) != Cell::OptInt64(Some(0)));
    assert!(Cell::OptInt64(Some(0)) != Cell::OptInt64(None));
    assert!(Cell::String("5".to_string()) == Cell::String("5".to_string()));
    assert!(Cell::String("5".to_string()) != Cell::String("55".to_string()));
    assert!(Cell::String("5".to_string()) != Cell::Int64(5));
    assert!(Cell::String("Sâ€žo".to_string()) == Cell::String("Sâ€žo".to_string()));
    assert!(Cell::String("é".to_string()) != Cell::String("è".to_string()));
}

/// A copy of a cell, of a row and of a table holds what they hold.
#[test]
fn clone_keeps_contents() {
    let row = Row {
        cells: vec![Cell::String("x".to_string()), Cell::Int64(-3), Cell::OptInt64(None)],
    };
    assert_eq!(row.clone().cells, row.cells);
    let table = Table {
        header: vec!["a".to_string(), "b".to_string(), "c".to_string()],
        numeric_columns: vec!["b".to_string()],
        rows: vec![row.clone(), row.clone()],
    };
    let copy = table.clone();
    assert_eq!(copy.header, table.header);
    assert_eq!(copy.numeric_columns, table.numeric_columns);
    assert_eq!(copy.rows.len(), 2);
    assert_eq!(copy.rows[1].cells, row.cells);
    assert_eq!(clone_names(&table.header), table.header);
}

/// A table prints its header, then its rows, each on a line of its own.
#[test]
fn table_to_string() {
    let table = Table {
        header: vec!["Name".to_string(), "Pop".to_string(), "Capital".to_string()],
        numeric_columns: vec!["Pop".to_string()],
        rows: vec![
            Row {
                cells: vec![
                    Cell::String("Aruba".to_string()),
                    Cell::Int64(103000),
                    Cell::OptInt64(Some(129)),
                ],
            },
            Row {
                cells: vec![
                    Cell::String("Antarctica".to_string()),
                    Cell::Int64(0),
                    Cell::OptInt64(None),
                ],
            },
        ],
    };
    assert_eq!(table.to_string(), "Name,Pop,Capital\nAruba,103000,129\nAntarctica,0,\n");
    assert_eq!(table.rows[0].to_string(), "Aruba,103000,129");
}

/// A table without rows prints its header only; one without columns an
/// empty line.
#[test]
fn table_to_string_empty() {
    let table = Table { header: vec!["a".to_string()], numeric_columns: vec![], rows: vec![] };
    assert_eq!(table.to_string(), "a\n");
    let nothing = Table { header: vec![], numeric_columns: vec![], rows: vec![] };
    assert_eq!(nothing.to_string(), "\n");
}

/// Names are looked up as they are written: case and length count.
#[test]
fn contains_name_is_exact() {
    let names = vec!["CityPop".to_string(), "count".to_string()];
    assert!(contains_name(&names, "CityPop"));
    assert!(contains_name(&names, "count"));
    assert!(!contains_name(&names, "citypop"));
    assert!(!contains_name(&names, "CityPo"));
    assert!(!contains_name(&names, ""));
    assert!(!contains_name(&vec![], "count"));
}

/// The datasets' names, columns and numeric columns.
#[test]
fn dataset_schemas() {
    assert_eq!(Dataset::City.to_string(), "city.csv");
    assert_eq!(Dataset::Country.to_string(), "country.csv");
    assert_eq!(Dataset::Language.to_string(), "language.csv");
    assert_eq!(Dataset::City.column_names(), vec!["CityID", "CityName", "CountryCode", "CityPop"]);
    assert_eq!(Dataset::City.numeric_columns(), vec!["CityID", "CityPop"]);
    assert_eq!(
        Dataset::Country.column_names(),
        vec!["CountryCode", "CountryName", "Continent", "CountryPop", "Capital"]
    );
    assert_eq!(Dataset::Country.numeric_columns(), vec!["CountryPop"]);
    assert_eq!(Dataset::Language.column_names(), vec!["CountryCode", "Language"]);
    assert_eq!(Dataset::Language.numeric_columns(), Vec::<String>::new());
    assert_eq!(City::column_names(), Dataset::City.column_names());
    assert_eq!(City::numeric_columns(), Dataset::City.numeric_columns());
    assert_eq!(Country::column_names(), Dataset::Country.column_names());
    assert_eq!(Country::numeric_columns(), Dataset::Country.numeric_columns());
    assert_eq!(Language::column_names(), Dataset::Language.column_names());
    assert_eq!(Language::numeric_columns(), Dataset::Language.numeric_columns());
}

/// A record becomes a row with one cell for each field, and prints as that
/// row.
#[test]
fn records_as_rows() {
    let country = Country {
        CountryCode: "ATA".to_string(),
        CountryName: "Antarctica".to_string(),
        Continent: "Antarctica".to_string(),
        CountryPop: 0,
        Capital: None,
    };
    assert_eq!(country.to_string(), "ATA,Antarctica,Antarctica,0,");
    assert_eq!(country.clone(), country);
    assert_eq!(
        country.into_row().cells,
        vec![
            Cell::String("ATA".to_string()),
            Cell::String("Antarctica".to_string()),
            Cell::String("Antarctica".to_string()),
            Cell::Int64(0),
            Cell::OptInt64(None),
        ]
    );
    let city = City {
        CityID: 1,
        CityName: "Kabul".to_string(),
        CountryCode: "AFG".to_string(),
        CityPop: 1780000,
    };
    assert_eq!(city.to_string(), "1,Kabul,AFG,1780000");
    assert_eq!(city.clone(), city);
    assert_eq!(
        city.into_row().cells,
        vec![
            Cell::Int64(1),
            Cell::String("Kabul".to_string()),
            Cell::String("AFG".to_string()),
            Cell::Int64(1780000),
        ]
    );
    let language = Language { CountryCode: "ABW".to_string(), Language: "Dutch".to_string() };
    assert_eq!(language.to_string(), "ABW,Dutch");
    assert_eq!(language.clone(), language);
    assert_eq!(
        language.into_row().cells,
        vec![Cell::String("ABW".to_string()), Cell::String("Dutch".to_string())]
    );
}

/// A record turns into its row by `from` and `into` as well.
#[test]
fn records_into_rows() {
    let city = City {
        CityID: 4079,
        CityName: "Rafah".to_string(),
        CountryCode: "PSE".to_string(),
        CityPop: 92020,
    };
    let row: Row = city.clone().into();
    assert_eq!(row.join(), "4079,Rafah,PSE,92020");
    assert_eq!(Row::from(city).cells, row.cells);
    let country = Country {
        CountryCode: "PSE".to_string(),
        CountryName: "Palestine".to_string(),
        Continent: "Asia".to_string(),
        CountryPop: 3101000,
        Capital: Some(4074),
    };
    let row: Row = country.clone().into();
    assert_eq!(row.join(), "PSE,Palestine,Asia,3101000,4074");
    assert_eq!(Row::from(country).cells, row.cells);
    let language = Language { CountryCode: "PSE".to_string(), Language: "Arabic".to_string() };
    let row: Row = language.clone().into();
    assert_eq!(row.join(), "PSE,Arabic");
    assert_eq!(Row::from(language).cells, row.cells);
}
