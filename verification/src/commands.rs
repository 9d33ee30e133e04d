//! Reading a query line: the two bare commands, and the chain of operators.

use vstd::prelude::*;
use crate::data::Dataset;
use crate::operators::{Operator, OperatorView};
use crate::text::{
    chars_of, fields, join_strings, joined, parse_count, parsed_count, split, str_eq, views,
    CountError, Separator,
};

verus! {

/// What a line of input asks for.
#[derive(Debug, PartialEq)]
pub enum Command {
    /// Leave.
    Exit,
    /// Show the help text.
    Help,
    /// Evaluate a chain of operators.
    Operator(Operator),
    /// The line is no command; the text says why.
    InputError(String),
    /// The line holds nothing.
    NoInput,
}

/// The mathematical value of a [`Command`].
pub enum CommandView {
    Exit,
    Help,
    Operator(OperatorView),
    InputError(Seq<char>),
    NoInput,
}

impl View for Command {
    type V = CommandView;

    open spec fn view(&self) -> CommandView {
        match self {
            Command::Exit => CommandView::Exit,
            Command::Help => CommandView::Help,
            Command::Operator(operator) => CommandView::Operator(operator@),
            Command::InputError(message) => CommandView::InputError(message@),
            Command::NoInput => CommandView::NoInput,
        }
    }
}

impl Clone for Command {
    fn clone(&self) -> (r: Self)
        ensures
            r@ == self@,
    {
        match self {
            Command::Exit => Command::Exit,
            Command::Help => Command::Help,
            Command::Operator(operator) => Command::Operator(operator.clone()),
            Command::InputError(message) => Command::InputError(message.clone()),
            Command::NoInput => Command::NoInput,
        }
    }
}

/// The text that `std` writes for a string slice under `{:?}`: the slice in
/// double quotes, with escapes where `std` sees fit.
pub uninterp spec fn debug_text(s: Seq<char>) -> Seq<char>;

/// Calls `std`'s `Debug` formatting of a string slice, through `format!`.
/// The contract only gives the result its name, [`debug_text`]: the text
/// depends on nothing but the slice.
#[verifier::external_body]
fn debug_quoted(token: &str) -> (r: String)
    ensures
        r@ == debug_text(token@),
{
    format!("{:?}", token)
}

/// The dataset that a file name stands for.
pub open spec fn dataset_named(token: Seq<char>) -> Option<Dataset> {
    if token == "language.csv"@ {
        Some(Dataset::Language)
    } else if token == "city.csv"@ {
        Some(Dataset::City)
    } else if token == "country.csv"@ {
        Some(Dataset::Country)
    } else {
        None
    }
}

/// The dataset that a file name stands for.
pub fn dataset_of(token: &str) -> (r: Option<Dataset>)
    ensures
        r == dataset_named(token@),
{
    if str_eq(token, "language.csv") {
        Some(Dataset::Language)
    } else if str_eq(token, "city.csv") {
        Some(Dataset::City)
    } else if str_eq(token, "country.csv") {
        Some(Dataset::Country)
    } else {
        None
    }
}

/// The complaint about what follows `FROM`, given the quoted form of the
/// token that stands there, if one does.
pub open spec fn from_argument_message(quoted: Option<Seq<char>>) -> Seq<char> {
    "Invalid argument to FROM: "@ + match quoted {
        Some(text) => "Some("@ + text + ")"@,
        None => "None"@,
    }
}

/// The complaint about what follows `FROM`, given the quoted form of the
/// token that stands there, if one does.
pub fn invalid_from_argument(quoted: Option<&str>) -> (r: String)
    ensures
        r@ == from_argument_message(
            match quoted {
                Some(text) => Some(text@),
                None => None,
            },
        ),
{
    let mut out = "Invalid argument to FROM: ".to_owned();
    match quoted {
        Some(text) => {
            out.append("Some(");
            out.append(text);
            out.append(")");
        },
        None => {
            out.append("None");
        },
    }
    out
}

/// The complaint about a line that makes no sense: all its tokens.
pub open spec fn invalid_input_message(tokens: Seq<Seq<char>>) -> Seq<char> {
    "Invalid Input: "@ + joined(tokens, " "@)
}

/// The complaint about a token that is no count.
pub open spec fn invalid_count_message(token: Seq<char>, error: CountError) -> Seq<char> {
    "Invalid value passed to TAKE operator: "@ + token
        + ". Must be a positive integer.\n Full error message: "@ + error.text()
}

/// The complaint about a `JOIN` with nothing behind it: the dataset is
/// missing.
pub open spec fn join_missing_dataset_message() -> Seq<char> {
    "JOIN must be followed by the dataset to join on."@
}

/// The complaint about a token behind `JOIN` that names no dataset.
pub open spec fn join_invalid_dataset_message(name: Seq<char>) -> Seq<char> {
    "Invalid dataset to JOIN on: "@ + name
}

/// The complaint about a `JOIN` with a dataset and nothing behind it: the
/// name of the column is missing.
pub open spec fn join_missing_column_message() -> Seq<char> {
    "JOIN must be followed by the dataset and the name of the column to join on."@
}

/// The complaint about an operator that stands where only `FROM` may.
pub open spec fn not_first_message(verb: Seq<char>) -> Seq<char> {
    verb + " can't be the first command; It must be preceded by at least a FROM."@
}

fn invalid_input(tokens: &Vec<String>) -> (r: String)
    ensures
        r@ == invalid_input_message(views(tokens@)),
{
    let mut out = "Invalid Input: ".to_owned();
    out.append(join_strings(tokens, " ").as_str());
    out
}

fn invalid_count(token: &str, error: CountError) -> (r: String)
    ensures
        r@ == invalid_count_message(token@, error),
{
    let mut out = "Invalid value passed to TAKE operator: ".to_owned();
    out.append(token);
    out.append(". Must be a positive integer.\n Full error message: ");
    out.append(error.to_string().as_str());
    out
}

fn not_first(verb: &str) -> (r: String)
    ensures
        r@ == not_first_message(verb@),
{
    let mut out = verb.to_owned();
    out.append(" can't be the first command; It must be preceded by at least a FROM.");
    out
}

/// What reading the tokens from `at` on gives, when `chain` has been read
/// before them.
///
/// Each operator takes the tokens that belong to it: `FROM`, `SELECT`,
/// `TAKE`, `ORDERBY` and `COUNTBY` one, `JOIN` two. `FROM` stands first and
/// nowhere else; every other operator needs a chain before it. A token that
/// is no operator where one must stand ends the reading. A `JOIN` whose
/// dataset is missing or unknown is told apart from one whose column name is
/// missing.
pub open spec fn parsed_from(tokens: Seq<Seq<char>>, at: int, chain: Option<OperatorView>) -> Result<
    OperatorView,
    Seq<char>,
>
    decreases tokens.len() - at,
{
    if at < 0 || at >= tokens.len() {
        match chain {
            Some(operator) => Ok(operator),
            None => Err(invalid_input_message(tokens)),
        }
    } else {
        let verb = tokens[at];
        let argument = if at + 1 < tokens.len() {
            Some(tokens[at + 1])
        } else {
            None
        };
        if verb == "FROM"@ {
            match (chain, argument) {
                (Some(_), _) => Err("FROM must always be the first operator."@),
                (None, None) => Err(from_argument_message(None)),
                (None, Some(name)) => match dataset_named(name) {
                    Some(dataset) => parsed_from(
                        tokens,
                        at + 2,
                        Some(OperatorView::From(dataset)),
                    ),
                    None => Err(from_argument_message(Some(debug_text(name)))),
                },
            }
        } else if verb == "SELECT"@ {
            match (argument, chain) {
                (None, _) => Err("SELECT takes at least one column name to select on."@),
                (Some(_), None) => Err(not_first_message("SELECT"@)),
                (Some(columns), Some(operator)) => parsed_from(
                    tokens,
                    at + 2,
                    Some(
                        OperatorView::Select {
                            chain: Box::new(operator),
                            column_names: fields(columns, Separator::Comma.test()),
                        },
                    ),
                ),
            }
        } else if verb == "TAKE"@ {
            match (argument, chain) {
                (None, _) => Err("TAKE must be followed by the number of rows to take."@),
                (Some(_), None) => Err(not_first_message("TAKE"@)),
                (Some(count), Some(operator)) => match parsed_count(count) {
                    Ok(n) => parsed_from(
                        tokens,
                        at + 2,
                        Some(OperatorView::Take { chain: Box::new(operator), count: n }),
                    ),
                    Err(error) => Err(invalid_count_message(count, error)),
                },
            }
        } else if verb == "ORDERBY"@ {
            match (argument, chain) {
                (None, _) => Err(
                    "ORDERBY must be followed by the name of the column to order by."@,
                ),
                (Some(_), None) => Err(not_first_message("ORDERBY"@)),
                (Some(column), Some(operator)) => parsed_from(
                    tokens,
                    at + 2,
                    Some(OperatorView::OrderBy { chain: Box::new(operator), column }),
                ),
            }
        } else if verb == "COUNTBY"@ {
            match (argument, chain) {
                (None, _) => Err("COUNTBY must be followed by the name of the column to count."@),
                (Some(_), None) => Err(not_first_message("COUNTBY"@)),
                (Some(column), Some(operator)) => parsed_from(
                    tokens,
                    at + 2,
                    Some(OperatorView::CountBy { chain: Box::new(operator), column }),
                ),
            }
        } else if verb == "JOIN"@ {
            match (chain, argument) {
                (None, _) => Err(not_first_message("JOIN"@)),
                (Some(_), None) => Err(join_missing_dataset_message()),
                (Some(operator), Some(name)) => match dataset_named(name) {
                    None => Err(join_invalid_dataset_message(name)),
                    Some(dataset) => if at + 2 < tokens.len() {
                        parsed_from(
                            tokens,
                            at + 3,
                            Some(
                                OperatorView::Join {
                                    chain: Box::new(operator),
                                    right: dataset,
                                    column: tokens[at + 2],
                                },
                            ),
                        )
                    } else {
                        Err(join_missing_column_message())
                    },
                },
            }
        } else {
            Err(invalid_input_message(tokens))
        }
    }
}

/// The chain that the tokens of a line describe, or the complaint about the
/// first thing that is wrong with them.
pub open spec fn parsed(tokens: Seq<Seq<char>>) -> Result<OperatorView, Seq<char>> {
    parsed_from(tokens, 0, None)
}

/// The mathematical value of what reading a chain returned.
pub open spec fn parse_outcome(r: Result<Operator, String>) -> Result<OperatorView, Seq<char>> {
    match r {
        Ok(operator) => Ok(operator@),
        Err(message) => Err(message@),
    }
}

/// The mathematical value of the chain read so far.
pub open spec fn chain_view(chain: Option<Operator>) -> Option<OperatorView> {
    match chain {
        Some(operator) => Some(operator@),
        None => None,
    }
}

/// Reads the tokens of a line as a chain of operators.
pub fn parse_operators(tokens: &Vec<String>) -> (r: Result<Operator, String>)
    ensures
        parse_outcome(r) == parsed(views(tokens@)),
{
    let ghost all = views(tokens@);
    let mut chain: Option<Operator> = None;
    let mut at: usize = 0;
    while at < tokens.len()
        invariant
            at <= tokens.len(),
            all == views(tokens@),
            parsed_from(all, at as int, chain_view(chain)) == parsed(all),
        decreases tokens.len() - at,
    {
        let verb = tokens[at].as_str();
        assert(all[at as int] == verb@);
        let argument: Option<&str> = if at + 1 < tokens.len() {
            assert(all[at + 1] == tokens@[at + 1]@);
            Some(tokens[at + 1].as_str())
        } else {
            None
        };
        let mut used: usize = 2;
        if str_eq(verb, "FROM") {
            if chain.is_some() {
                return Err("FROM must always be the first operator.".to_owned());
            }
            match argument {
                None => {
                    return Err(invalid_from_argument(None));
                },
                Some(name) => match dataset_of(name) {
                    Some(dataset) => {
                        chain = Some(Operator::From(dataset));
                    },
                    None => {
                        let quoted = debug_quoted(name);
                        return Err(invalid_from_argument(Some(quoted.as_str())));
                    },
                },
            }
        } else if str_eq(verb, "SELECT") {
            match (argument, chain) {
                (None, _) => {
                    return Err("SELECT takes at least one column name to select on.".to_owned());
                },
                (Some(_), None) => {
                    return Err(not_first("SELECT"));
                },
                (Some(columns), Some(operator)) => {
                    chain = Some(
                        Operator::Select {
                            chain: Box::new(operator),
                            column_names: split(columns, Separator::Comma),
                        },
                    );
                },
            }
        } else if str_eq(verb, "TAKE") {
            match (argument, chain) {
                (None, _) => {
                    return Err("TAKE must be followed by the number of rows to take.".to_owned());
                },
                (Some(_), None) => {
                    return Err(not_first("TAKE"));
                },
                (Some(count), Some(operator)) => match parse_count(count) {
                    Ok(n) => {
                        chain = Some(Operator::Take { chain: Box::new(operator), count: n });
                    },
                    Err(error) => {
                        return Err(invalid_count(count, error));
                    },
                },
            }
        } else if str_eq(verb, "ORDERBY") {
            match (argument, chain) {
                (None, _) => {
                    return Err(
                        "ORDERBY must be followed by the name of the column to order by.".to_owned(),
                    );
                },
                (Some(_), None) => {
                    return Err(not_first("ORDERBY"));
                },
                (Some(column), Some(operator)) => {
                    chain = Some(
                        Operator::OrderBy { chain: Box::new(operator), column: column.to_owned() },
                    );
                },
            }
        } else if str_eq(verb, "COUNTBY") {
            match (argument, chain) {
                (None, _) => {
                    return Err(
                        "COUNTBY must be followed by the name of the column to count.".to_owned(),
                    );
                },
                (Some(_), None) => {
                    return Err(not_first("COUNTBY"));
                },
                (Some(column), Some(operator)) => {
                    chain = Some(
                        Operator::CountBy { chain: Box::new(operator), column: column.to_owned() },
                    );
                },
            }
        } else if str_eq(verb, "JOIN") {
            match (chain, argument) {
                (None, _) => {
                    return Err(not_first("JOIN"));
                },
                (Some(_), None) => {
                    return Err("JOIN must be followed by the dataset to join on.".to_owned());
                },
                (Some(operator), Some(name)) => match dataset_of(name) {
                    None => {
                        let mut out = "Invalid dataset to JOIN on: ".to_owned();
                        out.append(name);
                        return Err(out);
                    },
                    Some(dataset) => {
                        if at + 2 < tokens.len() {
                            assert(all[at + 2] == tokens@[at + 2]@);
                            chain = Some(
                                Operator::Join {
                                    chain: Box::new(operator),
                                    right: dataset,
                                    column: tokens[at + 2].clone(),
                                },
                            );
                            used = 3;
                        } else {
                            return Err(
                                "JOIN must be followed by the dataset and the name of the column to join on.".to_owned(),
                            );
                        }
                    },
                },
            }
        } else {
            return Err(invalid_input(tokens));
        }
        at = at + used;
    }
    match chain {
        Some(operator) => Ok(operator),
        None => Err(invalid_input(tokens)),
    }
}

/// What a line of input asks for. A line that does not end in a line feed
/// asks for nothing. `help` and `exit` stand alone on their line; any other
/// line is cut into tokens at white space and read as a chain of operators.
pub open spec fn parsed_command(input: Seq<char>) -> CommandView {
    if input.len() == 0 || input.last() != '\n' {
        CommandView::NoInput
    } else {
        let line = input.drop_last();
        if line == "help"@ {
            CommandView::Help
        } else if line == "exit"@ {
            CommandView::Exit
        } else {
            let tokens = fields(line, Separator::Whitespace.test());
            if tokens.len() == 0 {
                CommandView::NoInput
            } else {
                match parsed(tokens) {
                    Ok(operator) => CommandView::Operator(operator),
                    Err(message) => CommandView::InputError(message),
                }
            }
        }
    }
}

/// Reads a line of input.
pub fn parse_command(input: &str) -> (r: Command)
    ensures
        r@ == parsed_command(input@),
{
    let chars = chars_of(input);
    let n = chars.len();
    if n == 0 || chars[n - 1] != '\n' {
        return Command::NoInput;
    }
    let line = input.substring_char(0, n - 1);
    assert(line@ =~= input@.drop_last());
    if str_eq(line, "help") {
        Command::Help
    } else if str_eq(line, "exit") {
        Command::Exit
    } else {
        let tokens = split(line, Separator::Whitespace);
        if tokens.len() == 0 {
            Command::NoInput
        } else {
            match parse_operators(&tokens) {
                Ok(operator) => Command::Operator(operator),
                Err(message) => Command::InputError(message),
            }
        }
    }
}

} // verus!
