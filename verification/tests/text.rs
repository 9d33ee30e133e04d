use toy_query_engine::text::{
    append_digits, chars_of, i64_to_decimal, join_strings, parse_count, split, str_eq,
    usize_to_decimal, CountError, Separator,
};

/// Texts are equal when they hold the same characters.
#[test]
fn str_eq_compares_characters() {
    assert!(str_eq("", ""));
    assert!(str_eq("CityPop", "CityPop"));
    assert!(!str_eq("CityPop", "CityPo"));
    assert!(!str_eq("CityPop", "CityPoq"));
    assert!(!str_eq("citypop", "CityPop"));
    assert!(!str_eq("", " "));
    assert!(str_eq("Ciudad_de_México", "Ciudad_de_México"));
    assert!(!str_eq("México", "Mexico"));
    assert!(!str_eq("é", "e\u{301}"));
}

/// Numbers are written in decimal, without leading zeros.
#[test]
fn decimal_text() {
    assert_eq!(usize_to_decimal(0), "0");
    assert_eq!(usize_to_decimal(9), "9");
    assert_eq!(usize_to_decimal(10), "10");
    assert_eq!(usize_to_decimal(1234567890), "1234567890");
    assert_eq!(usize_to_decimal(usize::MAX), format!("{}", usize::MAX));
    assert_eq!(i64_to_decimal(0), "0");
    assert_eq!(i64_to_decimal(-7), "-7");
    assert_eq!(i64_to_decimal(i64::MIN), "-9223372036854775808");
    assert_eq!(i64_to_decimal(i64::MAX), "9223372036854775807");
    let mut out = "n=".to_string();
    append_digits(&mut out, 4079);
    assert_eq!(out, "n=4079");
    append_digits(&mut out, u64::MAX);
    assert_eq!(out, "n=407918446744073709551615");
}

/// Parts are joined with the separator between them only.
#[test]
fn join_strings_separates() {
    let parts = |words: &[&str]| words.iter().map(|w| w.to_string()).collect::<Vec<String>>();
    assert_eq!(join_strings(&parts(&[]), ","), "");
    assert_eq!(join_strings(&parts(&["a"]), ","), "a");
    assert_eq!(join_strings(&parts(&["a", "b", "c"]), ","), "a,b,c");
    assert_eq!(join_strings(&parts(&["", "", ""]), ","), ",,");
    assert_eq!(join_strings(&parts(&["a", "b"]), " and "), "a and b");
    assert_eq!(join_strings(&parts(&["a", "b"]), ""), "ab");
}

/// A text is cut at every run of separators; no field is empty.
#[test]
fn split_gives_fields() {
    assert_eq!(split("", Separator::Comma), Vec::<String>::new());
    assert_eq!(split(",,,", Separator::Comma), Vec::<String>::new());
    assert_eq!(split("a", Separator::Comma), vec!["a"]);
    assert_eq!(split("a,b", Separator::Comma), vec!["a", "b"]);
    assert_eq!(split(",a,,b c,", Separator::Comma), vec!["a", "b c"]);
    assert_eq!(split("a b", Separator::Comma), vec!["a b"]);
    assert_eq!(split("  a \t b\nc  ", Separator::Whitespace), vec!["a", "b", "c"]);
    assert_eq!(split("a,b", Separator::Whitespace), vec!["a,b"]);
    assert_eq!(split("Sâ€žo_Paulo , MÃˆxico", Separator::Comma), vec!["Sâ€žo_Paulo ", " MÃˆxico"]);
    assert_eq!(split("é è", Separator::Whitespace), vec!["é", "è"]);
}

/// Cutting at white space gives what `split_whitespace` gives.
#[test]
fn split_agrees_with_split_whitespace() {
    let samples = [
        "FROM city.csv TAKE 5",
        " \u{9}\u{a}\u{b}\u{c}\u{d} x \u{85}y\u{a0}z\u{1680}",
        "a\u{2000}b\u{2001}c\u{2002}d\u{2003}e\u{2004}f\u{2005}g\u{2006}h\u{2007}i\u{2008}j\u{2009}k\u{200a}l",
        "m\u{2028}n\u{2029}o\u{202f}p\u{205f}q\u{3000}r",
        "no\u{200b}break\u{feff}here\u{180e}or\u{1c}here\u{200c}",
        "",
        "   ",
    ];
    for sample in samples {
        let expected: Vec<String> = sample.split_whitespace().map(|s| s.to_string()).collect();
        assert_eq!(split(sample, Separator::Whitespace), expected);
    }
    for code in 0..0x3100u32 {
        if let Some(c) = char::from_u32(code) {
            assert_eq!(Separator::Whitespace.separates(c), c.is_whitespace());
            assert_eq!(Separator::Comma.separates(c), c == ',');
        }
    }
}

/// The characters of a text, one by one.
#[test]
fn chars_of_text() {
    assert_eq!(chars_of(""), Vec::<char>::new());
    assert_eq!(chars_of("aé\n"), vec!['a', 'é', '\n']);
}

/// A count is an optional plus sign and digits.
#[test]
fn parse_count_reads_counts() {
    assert_eq!(parse_count("0"), Ok(0));
    assert_eq!(parse_count("42"), Ok(42));
    assert_eq!(parse_count("+42"), Ok(42));
    assert_eq!(parse_count("0000000000000000000000000000000042"), Ok(42));
    assert_eq!(parse_count(&format!("{}", usize::MAX)), Ok(usize::MAX));
    assert_eq!(parse_count(""), Err(CountError::Empty));
    assert_eq!(parse_count("+"), Err(CountError::InvalidDigit));
    assert_eq!(parse_count("-"), Err(CountError::InvalidDigit));
    assert_eq!(parse_count("-1"), Err(CountError::InvalidDigit));
    assert_eq!(parse_count("4 2"), Err(CountError::InvalidDigit));
    assert_eq!(parse_count("42 "), Err(CountError::InvalidDigit));
    assert_eq!(parse_count("٤٢"), Err(CountError::InvalidDigit));
    assert_eq!(parse_count(&format!("{}0", usize::MAX)), Err(CountError::PosOverflow));
    assert_eq!(parse_count(&format!("{}0x", usize::MAX)), Err(CountError::PosOverflow));
    assert_eq!(parse_count(&format!("{}x", usize::MAX)), Err(CountError::InvalidDigit));
    assert_eq!(parse_count("340282366920938463463374607431768211456"), Err(CountError::PosOverflow));
}

/// The messages of the three errors.
#[test]
fn count_error_messages() {
    assert_eq!(CountError::Empty.to_string(), "cannot parse integer from empty string");
    assert_eq!(CountError::InvalidDigit.to_string(), "invalid digit found in string");
    assert_eq!(CountError::PosOverflow.to_string(), "number too large to fit in target type");
    assert_eq!("".parse::<usize>().unwrap_err().to_string(), CountError::Empty.to_string());
    assert_eq!("x".parse::<usize>().unwrap_err().to_string(), CountError::InvalidDigit.to_string());
    assert_eq!(
        "99999999999999999999999999".parse::<usize>().unwrap_err().to_string(),
        CountError::PosOverflow.to_string()
    );
}

/// A count that is written out and read again is the same count.
#[test]
fn count_round_trip() {
    for count in [0, 1, 9, 10, 99, 100, 4079, 30670, usize::MAX - 1, usize::MAX] {
        assert_eq!(parse_count(&usize_to_decimal(count)), Ok(count));
    }
}
