use toy_query_engine::commands::{parse_command, parse_operators, Command};
use toy_query_engine::data::Dataset;
use toy_query_engine::operators::Operator;

/// Test for NULL input
#[test]
fn test_parse_command_no_input() {
    assert_eq!(parse_command("\n"), Command::NoInput);
}

/// Test 'exit' command as input
#[test]
fn test_parse_command_exit() {
    assert_eq!(parse_command("exit\n"), Command::Exit);
}

/// Test malformed command as input
#[test]
fn test_parse_command_malformed1() {
    assert_eq!(
        parse_command("FRM language.csv\n"),
        Command::InputError("Invalid Input: FRM language.csv".to_string())
    );
}

/// Test malformed command as input
#[test]
fn test_parse_command_malformed2() {
    assert_eq!(
        parse_command("TAKE language.csv\n"),
        Command::InputError(
            "TAKE can't be the first command; It must be preceded by at least a FROM.".to_string()
        )
    );
}

/// Test malformed command as input
#[test]
fn test_parse_command_malformed3() {
    assert_eq!(
        parse_command("language.csv\n"),
        Command::InputError("Invalid Input: language.csv".to_string())
    );
}

/// Test malformed command as input
#[test]
fn test_parse_command_malformed4() {
    assert_eq!(
        parse_command("help FROM language.csv\n"),
        Command::InputError("Invalid Input: help FROM language.csv".to_string())
    );
}

/// Test malformed command as input
#[test]
fn test_parse_command_malformed5() {
    assert_eq!(
        parse_command("FROM ORDERBY CityPop TAKE 7 SELECT CityName,CityPop\n"),
        Command::InputError("Invalid argument to FROM: Some(\"ORDERBY\")".to_string())
    );
}

/// Test malformed command as input
#[test]
fn test_parse_command_malformed6() {
    assert_eq!(
        parse_command("FROM city.csv ORDERBY TAKE 7 SELECT CityName,CityPop\n"),
        Command::InputError(
            "Invalid Input: FROM city.csv ORDERBY TAKE 7 SELECT CityName,CityPop".to_string()
        )
    );
}

/// Test malformed command as input
#[test]
fn test_parse_command_malformed7() {
    assert_eq!(
        parse_command("FROM city.csv ORDERBY CityPop TAKE SELECT CityName,CityPop\n"),
        Command::InputError("Invalid value passed to TAKE operator: SELECT. Must be a positive integer.\n Full error message: invalid digit found in string".to_string())
    );
}

/// Test malformed command as input
#[test]
fn test_parse_command_malformed8() {
    assert_eq!(
        parse_command("FROM city.csv ORDERBY CityPop TAKE 7 SELECT\n"),
        Command::InputError("SELECT takes at least one column name to select on.".to_string())
    );
}

/// Test malformed command as input
#[test]
fn test_parse_command_malformed9() {
    assert_eq!(
        parse_command("FROM city.csv TAKE -2\n"),
        Command::InputError("Invalid value passed to TAKE operator: -2. Must be a positive integer.\n Full error message: invalid digit found in string".to_string())
    );
}

/// Test malformed command as input
#[test]
fn test_parse_command_malformed10() {
    assert_eq!(
        parse_command("FROM city.csv TAKE CityID\n"),
        Command::InputError("Invalid value passed to TAKE operator: CityID. Must be a positive integer.\n Full error message: invalid digit found in string".to_string())
    );
}

/// Test malformed command as input
#[test]
fn test_parse_command_malformed11() {
    assert_eq!(
        parse_command("FROM city.cv\n"),
        Command::InputError("Invalid argument to FROM: Some(\"city.cv\")".to_string())
    );
}

/// Test malformed command as input
#[test]
fn test_parse_command_malformed12() {
    assert_eq!(
        parse_command("FROM cit.csv\n"),
        Command::InputError("Invalid argument to FROM: Some(\"cit.csv\")".to_string())
    );
}

/// Test malformed command as input
#[test]
fn test_parse_command_malformed13() {
    assert_eq!(
        parse_command("FROM lungage.csv\n"),
        Command::InputError("Invalid argument to FROM: Some(\"lungage.csv\")".to_string())
    );
}

/// Test malformed command as input
#[test]
fn test_parse_command_malformed14() {
    assert_eq!(
        parse_command("FROM contry.csv\n"),
        Command::InputError("Invalid argument to FROM: Some(\"contry.csv\")".to_string())
    );
}

/// Test malformed command as input
#[test]
fn test_parse_command_malformed15() {
    assert_eq!(
        parse_command("FROM city.csv JOIN country.csv\n"),
        Command::InputError(
            "JOIN must be followed by the dataset and the name of the column to join on."
                .to_string()
        )
    );
}

/// Test malformed command as input
#[test]
fn test_parse_command_malformed16() {
    assert_eq!(
        parse_command("FROM city.csv JOIN CountryCode\n"),
        Command::InputError("Invalid dataset to JOIN on: CountryCode".to_string())
    );
}

/// Test malformed command as input
#[test]
fn test_parse_command_malformed17() {
    assert_eq!(
        parse_command("FROM city.csv JOIN country.csv CountryCode JOIN lnguage.csv CountryCode\n"),
        Command::InputError("Invalid dataset to JOIN on: lnguage.csv".to_string())
    );
}

/// Test 'help'command as input
#[test]
fn test_parse_command_help() {
    assert_eq!(parse_command("help\n"), Command::Help);
}

/// Test well-formed input: `FROM language.csv`.
#[test]
fn test_parse_command_from_language() {
    assert_eq!(
        parse_command("FROM language.csv\n"),
        Command::Operator(Operator::From(Dataset::Language))
    );
}

/// Test well-formed input: `FROM city.csv`.
#[test]
fn test_parse_command_from_city() {
    assert_eq!(
        parse_command("FROM city.csv\n"),
        Command::Operator(Operator::From(Dataset::City))
    );
}

/// Test well-formed input: `FROM country.csv`.
#[test]
fn test_parse_command_from_country() {
    assert_eq!(
        parse_command("FROM country.csv\n"),
        Command::Operator(Operator::From(Dataset::Country))
    );
}
/// Test well-formed input: "FROM city.csv ORDERBY CityPop TAKE 7 SELECT CityName,CityPop\n"
#[test]
fn test_parse_command_complex1() {
    assert_eq!(
        parse_command("FROM city.csv ORDERBY CityPop TAKE 7 SELECT CityName,CityPop\n"),
        Command::Operator(Operator::Select {
            chain: Box::new(Operator::Take {
                chain: Box::new(Operator::OrderBy {
                    chain: Box::new(Operator::From(Dataset::City)),
                    column: "CityPop".to_string()
                }),
                count: 7
            }),
            column_names: vec!["CityName".to_string(), "CityPop".to_string()]
        }),
    );
}
/// Test well-formed input: "FROM city.csv SELECT CityName\n"
#[test]
fn test_parse_command_complex2() {
    assert_eq!(
        parse_command("FROM city.csv SELECT CityName\n"),
        Command::Operator(Operator::Select {
            chain: Box::new(Operator::From(Dataset::City)),
            column_names: vec!["CityName".to_string()]
        })
    );
}

/// Test well-formed input: "FROM country.csv SELECT CountryCode,Continent,CountryPop\n"
#[test]
fn test_parse_command_complex3() {
    assert_eq!(
        parse_command("FROM country.csv SELECT CountryCode,Continent,CountryPop\n"),
        Command::Operator(Operator::Select {
            chain: Box::new(Operator::From(Dataset::Country)),
            column_names: vec![
                "CountryCode".to_string(),
                "Continent".to_string(),
                "CountryPop".to_string()
            ]
        }),
    );
}
/// Test well-formed input: "FROM city.csv TAKE 2\n"
#[test]
fn test_parse_command_complex4() {
    assert_eq!(
        parse_command("FROM city.csv TAKE 2\n"),
        Command::Operator(Operator::Take {
            chain: Box::new(Operator::From(Dataset::City)),
            count: 2
        }),
    );
}
/// Test well-formed input: "FROM city.csv ORDERBY CityPop TAKE 10\n"
#[test]
fn test_parse_command_complex5() {
    assert_eq!(
        parse_command("FROM city.csv ORDERBY CityPop TAKE 10\n"),
        Command::Operator(Operator::Take {
            chain: Box::new(Operator::OrderBy {
                chain: Box::new(Operator::From(Dataset::City)),
                column: "CityPop".to_string()
            }),
            count: 10
        }),
    );
}
/// Test well-formed input: "FROM city.csv JOIN country.csv CountryCode\n"
#[test]
fn test_parse_command_complex6() {
    assert_eq!(
        parse_command("FROM city.csv JOIN country.csv CountryCode\n"),
        Command::Operator(Operator::Join {
            chain: Box::new(Operator::From(Dataset::City)),
            right: Dataset::Country,
            column: "CountryCode".to_string()
        }),
    );
}
/// Test well-formed input: "FROM city.csv JOIN country.csv CountryCode JOIN language.csv
/// CountryCode\n"
#[test]
fn test_parse_command_complex7() {
    assert_eq!(
        parse_command("FROM city.csv JOIN country.csv CountryCode JOIN language.csv CountryCode\n"),
        Command::Operator(Operator::Join {
            chain: Box::new(Operator::Join {
                chain: Box::new(Operator::From(Dataset::City)),
                right: Dataset::Country,
                column: "CountryCode".to_string()
            }),
            right: Dataset::Language,
            column: "CountryCode".to_string()
        }),
    );
}
/// Test well-formed input: "FROM language.csv COUNTBY Language ORDERBY count TAKE 7\n"
#[test]
fn test_parse_command_complex8() {
    assert_eq!(
        parse_command("FROM language.csv COUNTBY Language ORDERBY count TAKE 7\n"),
        Command::Operator(Operator::Take {
            chain: Box::new(Operator::OrderBy {
                chain: Box::new(Operator::CountBy {
                    chain: Box::new(Operator::From(Dataset::Language)),
                    column: "Language".to_string()
                }),
                column: "count".to_string()
            }),
            count: 7
        }),
    );
}

/// A line without a line feed at its end asks for nothing.
#[test]
fn parse_command_without_line_feed() {
    assert_eq!(parse_command("FROM city.csv"), Command::NoInput);
    assert_eq!(parse_command("help"), Command::NoInput);
    assert_eq!(parse_command(""), Command::NoInput);
}

/// A line of white space asks for nothing.
#[test]
fn parse_command_blank_line() {
    assert_eq!(parse_command("   \t \n"), Command::NoInput);
    assert_eq!(parse_command("\u{a0}\u{3000}\n"), Command::NoInput);
}

/// `help` and `exit` must stand alone on the line.
#[test]
fn parse_command_help_with_spaces() {
    assert_eq!(
        parse_command(" help\n"),
        Command::InputError("Invalid Input: help".to_string())
    );
    assert_eq!(
        parse_command("exit \n"),
        Command::InputError("Invalid Input: exit".to_string())
    );
}

/// Only the last line feed is taken off; others separate tokens.
#[test]
fn parse_command_inner_line_feed() {
    assert_eq!(
        parse_command("FROM\ncity.csv\n\n"),
        Command::Operator(Operator::From(Dataset::City))
    );
}

/// Any run of white space separates two tokens.
#[test]
fn parse_command_wide_spaces() {
    assert_eq!(
        parse_command("  FROM \t city.csv \u{2003} TAKE   3  \n"),
        Command::Operator(Operator::Take {
            chain: Box::new(Operator::From(Dataset::City)),
            count: 3
        })
    );
}

/// A second FROM is refused.
#[test]
fn parse_command_second_from() {
    assert_eq!(
        parse_command("FROM city.csv FROM country.csv\n"),
        Command::InputError("FROM must always be the first operator.".to_string())
    );
    assert_eq!(
        parse_command("FROM city.csv TAKE 1 FROM\n"),
        Command::InputError("FROM must always be the first operator.".to_string())
    );
}

/// FROM with nothing behind it.
#[test]
fn parse_command_from_alone() {
    assert_eq!(
        parse_command("FROM\n"),
        Command::InputError("Invalid argument to FROM: None".to_string())
    );
}

/// The token behind FROM is shown quoted, with its quotes and backslashes
/// escaped.
#[test]
fn parse_command_from_quotes_its_argument() {
    assert_eq!(
        parse_command("FROM ci\"ty\\csv\n"),
        Command::InputError("Invalid argument to FROM: Some(\"ci\\\"ty\\\\csv\")".to_string())
    );
}

/// Every operator but FROM needs a chain before it.
#[test]
fn parse_command_operator_first() {
    assert_eq!(
        parse_command("SELECT CityName\n"),
        Command::InputError(
            "SELECT can't be the first command; It must be preceded by at least a FROM."
                .to_string()
        )
    );
    assert_eq!(
        parse_command("ORDERBY CityPop\n"),
        Command::InputError(
            "ORDERBY can't be the first command; It must be preceded by at least a FROM."
                .to_string()
        )
    );
    assert_eq!(
        parse_command("COUNTBY CityPop\n"),
        Command::InputError(
            "COUNTBY can't be the first command; It must be preceded by at least a FROM."
                .to_string()
        )
    );
    assert_eq!(
        parse_command("JOIN city.csv CityID\n"),
        Command::InputError(
            "JOIN can't be the first command; It must be preceded by at least a FROM."
                .to_string()
        )
    );
    assert_eq!(
        parse_command("JOIN\n"),
        Command::InputError(
            "JOIN can't be the first command; It must be preceded by at least a FROM."
                .to_string()
        )
    );
}

/// An operator at the end of the line misses its argument.
#[test]
fn parse_command_missing_argument() {
    assert_eq!(
        parse_command("TAKE\n"),
        Command::InputError("TAKE must be followed by the number of rows to take.".to_string())
    );
    assert_eq!(
        parse_command("FROM city.csv TAKE\n"),
        Command::InputError("TAKE must be followed by the number of rows to take.".to_string())
    );
    assert_eq!(
        parse_command("FROM city.csv ORDERBY\n"),
        Command::InputError(
            "ORDERBY must be followed by the name of the column to order by.".to_string()
        )
    );
    assert_eq!(
        parse_command("FROM city.csv COUNTBY\n"),
        Command::InputError(
            "COUNTBY must be followed by the name of the column to count.".to_string()
        )
    );
    assert_eq!(
        parse_command("FROM city.csv JOIN\n"),
        Command::InputError("JOIN must be followed by the dataset to join on.".to_string())
    );
}

/// A JOIN without its dataset is not complained about as a JOIN without its
/// column name is.
#[test]
fn parse_command_join_missing_dataset() {
    let bare = parse_command("FROM city.csv JOIN\n");
    let unknown = parse_command("FROM city.csv JOIN CountryCode\n");
    let no_column = parse_command("FROM city.csv JOIN country.csv\n");
    assert_eq!(
        bare,
        Command::InputError("JOIN must be followed by the dataset to join on.".to_string())
    );
    assert_eq!(
        unknown,
        Command::InputError("Invalid dataset to JOIN on: CountryCode".to_string())
    );
    assert_eq!(
        no_column,
        Command::InputError(
            "JOIN must be followed by the dataset and the name of the column to join on."
                .to_string()
        )
    );
    assert_ne!(bare, no_column);
    assert_ne!(unknown, no_column);
    assert_eq!(
        parse_operators(&vec!["FROM".to_string(), "city.csv".to_string(), "JOIN".to_string()]),
        Err("JOIN must be followed by the dataset to join on.".to_string())
    );
    assert_eq!(
        parse_command("FROM city.csv JOIN country.csv CountryCode TAKE 3 JOIN\n"),
        Command::InputError("JOIN must be followed by the dataset to join on.".to_string())
    );
}

/// Empty stretches between commas are no column names.
#[test]
fn parse_command_select_drops_empty_names() {
    assert_eq!(
        parse_command("FROM city.csv SELECT ,CityName,,CityPop,\n"),
        Command::Operator(Operator::Select {
            chain: Box::new(Operator::From(Dataset::City)),
            column_names: vec!["CityName".to_string(), "CityPop".to_string()]
        })
    );
    assert_eq!(
        parse_command("FROM city.csv SELECT ,,\n"),
        Command::Operator(Operator::Select {
            chain: Box::new(Operator::From(Dataset::City)),
            column_names: vec![]
        })
    );
}

/// The counts that TAKE accepts, and the three ways in which it refuses.
#[test]
fn parse_command_take_counts() {
    assert_eq!(
        parse_command("FROM city.csv TAKE 0\n"),
        Command::Operator(Operator::Take {
            chain: Box::new(Operator::From(Dataset::City)),
            count: 0
        })
    );
    assert_eq!(
        parse_command("FROM city.csv TAKE +007\n"),
        Command::Operator(Operator::Take {
            chain: Box::new(Operator::From(Dataset::City)),
            count: 7
        })
    );
    assert_eq!(
        parse_command("FROM city.csv TAKE 340282366920938463463374607431768211456\n"),
        Command::InputError("Invalid value passed to TAKE operator: 340282366920938463463374607431768211456. Must be a positive integer.\n Full error message: number too large to fit in target type".to_string())
    );
    assert_eq!(
        parse_command("FROM city.csv TAKE 340282366920938463463374607431768211456x\n"),
        Command::InputError("Invalid value passed to TAKE operator: 340282366920938463463374607431768211456x. Must be a positive integer.\n Full error message: number too large to fit in target type".to_string())
    );
    assert_eq!(
        parse_command("FROM city.csv TAKE 12x\n"),
        Command::InputError("Invalid value passed to TAKE operator: 12x. Must be a positive integer.\n Full error message: invalid digit found in string".to_string())
    );
    assert_eq!(
        parse_command("FROM city.csv TAKE +\n"),
        Command::InputError("Invalid value passed to TAKE operator: +. Must be a positive integer.\n Full error message: invalid digit found in string".to_string())
    );
}

/// What TAKE accepts is what `usize` reads from a text.
#[test]
fn parse_command_take_agrees_with_usize() {
    for token in [
        "0", "1", "+1", "-1", "-", "+", "++1", "007", "18446744073709551615",
        "18446744073709551616", "4294967295", "4294967296", "9x", "x9", "1_000", "１２",
        "99999999999999999999999999x",
    ] {
        let line = format!("FROM city.csv TAKE {}\n", token);
        let expected = match token.parse::<usize>() {
            Ok(count) => Command::Operator(Operator::Take {
                chain: Box::new(Operator::From(Dataset::City)),
                count,
            }),
            Err(e) => Command::InputError(format!(
                "Invalid value passed to TAKE operator: {}. Must be a positive integer.\n Full error message: {}",
                token, e
            )),
        };
        assert_eq!(parse_command(&line), expected);
    }
}

/// An empty token is no count; only a caller that makes its own tokens can
/// hand one over.
#[test]
fn parse_operators_empty_count() {
    let tokens = vec!["FROM".to_string(), "city.csv".to_string(), "TAKE".to_string(), String::new()];
    assert_eq!(
        parse_operators(&tokens),
        Err("Invalid value passed to TAKE operator: . Must be a positive integer.\n Full error message: cannot parse integer from empty string".to_string())
    );
}

/// No tokens are no chain.
#[test]
fn parse_operators_no_tokens() {
    assert_eq!(parse_operators(&vec![]), Err("Invalid Input: ".to_string()));
}

/// A token that is no operator ends the reading, and the complaint shows the
/// whole line.
#[test]
fn parse_command_unknown_operator_shows_all_tokens() {
    assert_eq!(
        parse_command("FROM city.csv TAKE 5 from city.csv\n"),
        Command::InputError("Invalid Input: FROM city.csv TAKE 5 from city.csv".to_string())
    );
}

/// What is wrong first decides: the unknown dataset, not the missing column.
#[test]
fn parse_command_join_unknown_dataset() {
    assert_eq!(
        parse_command("FROM city.csv JOIN planets.csv\n"),
        Command::InputError("Invalid dataset to JOIN on: planets.csv".to_string())
    );
}

/// A chain prints as the line that describes it.
#[test]
fn operator_to_string_round_trip() {
    let line = "FROM city.csv JOIN country.csv CountryCode SELECT CityName,CountryName COUNTBY CountryName ORDERBY count TAKE 12";
    match parse_command(&format!("{}\n", line)) {
        Command::Operator(operator) => {
            assert_eq!(operator.to_string(), line);
            assert_eq!(operator.clone(), operator);
        }
        other => panic!("no chain: {:?}", other),
    }
}

/// A command and its copy are equal.
#[test]
fn command_clone() {
    for line in ["help\n", "exit\n", "\n", "FROM city.csv TAKE 2\n", "TAKE\n"] {
        let command = parse_command(line);
        assert_eq!(command.clone(), command);
    }
}
