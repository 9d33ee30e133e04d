//! Text helpers: comparing, joining and splitting strings, and decimal numbers.

use vstd::prelude::*;
use vstd::string::StringSliceAdditionalSpecFns;
use vstd::utf8::encode_utf8_decode_utf8;

verus! {

/// The view of each string of a sequence.
pub open spec fn views(strings: Seq<String>) -> Seq<Seq<char>> {
    strings.map_values(|s: String| s@)
}

/// Whether two string slices hold the same characters.
pub fn str_eq(a: &str, b: &str) -> (r: bool)
    ensures
        r == (a@ == b@),
{
    let x = a.as_bytes();
    let y = b.as_bytes();
    proof {
        encode_utf8_decode_utf8(a@);
        encode_utf8_decode_utf8(b@);
    }
    if x.len() != y.len() {
        return false;
    }
    let mut i: usize = 0;
    while i < x.len()
        invariant
            i <= x.len(),
            x.len() == y.len(),
            x@ == a.spec_bytes(),
            y@ == b.spec_bytes(),
            forall|j: int| 0 <= j < i ==> x@[j] == y@[j],
        decreases x.len() - i,
    {
        if x[i] != y[i] {
            return false;
        }
        i = i + 1;
    }
    assert(x@ =~= y@);
    true
}

/// The character that stands for a digit below ten.
pub open spec fn digit_char(d: nat) -> char {
    if d == 0 {
        '0'
    } else if d == 1 {
        '1'
    } else if d == 2 {
        '2'
    } else if d == 3 {
        '3'
    } else if d == 4 {
        '4'
    } else if d == 5 {
        '5'
    } else if d == 6 {
        '6'
    } else if d == 7 {
        '7'
    } else if d == 8 {
        '8'
    } else {
        '9'
    }
}

/// The decimal digits of a natural number, most significant first, without
/// leading zeros.
pub open spec fn decimal_digits(n: nat) -> Seq<char>
    decreases n,
{
    if n < 10 {
        seq![digit_char(n)]
    } else {
        decimal_digits(n / 10).push(digit_char(n % 10))
    }
}

/// The decimal text of an integer: a minus sign for a negative number, then
/// the digits of its magnitude.
pub open spec fn decimal(i: int) -> Seq<char> {
    if i < 0 {
        seq!['-'] + decimal_digits((-i) as nat)
    } else {
        decimal_digits(i as nat)
    }
}

fn digit_text(d: u64) -> (r: &'static str)
    requires
        d < 10,
    ensures
        r@ == seq![digit_char(d as nat)],
{
    let r = if d == 0 {
        proof { reveal_strlit("0"); }
        "0"
    } else if d == 1 {
        proof { reveal_strlit("1"); }
        "1"
    } else if d == 2 {
        proof { reveal_strlit("2"); }
        "2"
    } else if d == 3 {
        proof { reveal_strlit("3"); }
        "3"
    } else if d == 4 {
        proof { reveal_strlit("4"); }
        "4"
    } else if d == 5 {
        proof { reveal_strlit("5"); }
        "5"
    } else if d == 6 {
        proof { reveal_strlit("6"); }
        "6"
    } else if d == 7 {
        proof { reveal_strlit("7"); }
        "7"
    } else if d == 8 {
        proof { reveal_strlit("8"); }
        "8"
    } else {
        proof { reveal_strlit("9"); }
        "9"
    };
    assert(r@ =~= seq![digit_char(d as nat)]);
    r
}

/// Appends the decimal digits of `n` to `out`.
pub fn append_digits(out: &mut String, n: u64)
    ensures
        final(out)@ == old(out)@ + decimal_digits(n as nat),
    decreases n,
{
    if n >= 10 {
        append_digits(out, n / 10);
    }
    out.append(digit_text(n % 10));
    assert(out@ =~= old(out)@ + decimal_digits(n as nat));
}

/// The decimal text of an unsigned count.
pub fn usize_to_decimal(n: usize) -> (r: String)
    ensures
        r@ == decimal(n as int),
{
    let mut out = String::new();
    append_digits(&mut out, n as u64);
    assert(out@ =~= decimal(n as int));
    out
}

/// The decimal text of a signed integer.
pub fn i64_to_decimal(v: i64) -> (r: String)
    ensures
        r@ == decimal(v as int),
{
    let mut out = String::new();
    if v < 0 {
        proof { reveal_strlit("-"); }
        out.append("-");
        let magnitude: u64 = ((-(v + 1)) as u64) + 1;
        append_digits(&mut out, magnitude);
        assert(out@ =~= decimal(v as int));
    } else {
        append_digits(&mut out, v as u64);
        assert(out@ =~= decimal(v as int));
    }
    out
}

/// The parts of a sequence written one after the other with `sep` between
/// each two neighbours.
pub open spec fn joined(parts: Seq<Seq<char>>, sep: Seq<char>) -> Seq<char>
    decreases parts.len(),
{
    if parts.len() == 0 {
        Seq::empty()
    } else if parts.len() == 1 {
        parts[0]
    } else {
        joined(parts.drop_last(), sep) + sep + parts.last()
    }
}

/// Joins `parts` with `sep` between each two neighbours.
pub fn join_strings(parts: &Vec<String>, sep: &str) -> (r: String)
    ensures
        r@ == joined(views(parts@), sep@),
{
    let mut out = String::new();
    let mut i: usize = 0;
    while i < parts.len()
        invariant
            i <= parts.len(),
            out@ == joined(views(parts@).take(i as int), sep@),
        decreases parts.len() - i,
    {
        if i > 0 {
            out.append(sep);
        }
        out.append(parts[i].as_str());
        proof {
            let all = views(parts@);
            assert(all.take(i + 1).drop_last() =~= all.take(i as int));
            assert(all.take(i + 1).last() == parts@[i as int]@);
            assert(out@ =~= joined(all.take(i + 1), sep@));
        }
        i = i + 1;
    }
    assert(views(parts@).take(i as int) =~= views(parts@));
    out
}


/// The characters of a string slice.
pub fn chars_of(s: &str) -> (r: Vec<char>)
    ensures
        r@ == s@,
{
    let mut out: Vec<char> = Vec::new();
    for c in it: s.chars()
        invariant
            out@ == it.seq().take(it.index() as int),
            it.seq() == s@,
    {
        out.push(c);
        assert(out@ =~= it.seq().take(it.index() + 1));
    }
    assert(out@ =~= s@);
    out
}

/// What separates the fields of a text.
#[derive(Debug, Clone, Copy, PartialEq, Eq)]
pub enum Separator {
    /// Any character that Unicode counts as white space.
    Whitespace,
    /// The comma.
    Comma,
}

/// Whether Unicode counts a character as white space (`White_Space`).
pub open spec fn is_whitespace(c: char) -> bool {
    let n = c as u32;
    ||| 0x09 <= n <= 0x0D
    ||| n == 0x20
    ||| n == 0x85
    ||| n == 0xA0
    ||| n == 0x1680
    ||| 0x2000 <= n <= 0x200A
    ||| n == 0x2028
    ||| n == 0x2029
    ||| n == 0x202F
    ||| n == 0x205F
    ||| n == 0x3000
}

impl Separator {
    /// The test whether a character separates fields.
    pub open spec fn test(self) -> spec_fn(char) -> bool {
        match self {
            Separator::Whitespace => |c: char| is_whitespace(c),
            Separator::Comma => |c: char| c == ',',
        }
    }

    /// Whether `c` separates fields.
    pub fn separates(&self, c: char) -> (r: bool)
        ensures
            r == (self.test())(c),
    {
        match self {
            Separator::Whitespace => {
                let n: u32 = c as u32;
                (0x09 <= n && n <= 0x0D) || n == 0x20 || n == 0x85 || n == 0xA0 || n == 0x1680 || (
                0x2000 <= n && n <= 0x200A) || n == 0x2028 || n == 0x2029 || n == 0x202F || n
                    == 0x205F || n == 0x3000
            },
            Separator::Comma => c == ',',
        }
    }
}

/// How many characters at the start of `s` come before the first one at
/// which `stop` holds.
pub open spec fn leading_run(s: Seq<char>, stop: spec_fn(char) -> bool) -> nat
    decreases s.len(),
{
    if s.len() == 0 || stop(s[0]) {
        0
    } else {
        1 + leading_run(s.drop_first(), stop)
    }
}

/// The fields of `s`: its longest stretches of characters that are no
/// separators, from left to right. No field is empty.
pub open spec fn fields(s: Seq<char>, separator: spec_fn(char) -> bool) -> Seq<Seq<char>>
    decreases s.len(),
    via fields_decreases
{
    if s.len() == 0 {
        Seq::empty()
    } else if separator(s[0]) {
        fields(s.drop_first(), separator)
    } else {
        let n = leading_run(s, separator) as int;
        seq![s.take(n)] + fields(s.skip(n), separator)
    }
}

#[via_fn]
proof fn fields_decreases(s: Seq<char>, separator: spec_fn(char) -> bool) {
    if s.len() > 0 && !separator(s[0]) {
        lemma_leading_run(s, separator, 1);
    }
}

/// A stretch of `n` characters at which `stop` does not hold is part of the
/// leading run; if it ends the text, or `stop` holds behind it, it is the
/// leading run.
pub proof fn lemma_leading_run(s: Seq<char>, stop: spec_fn(char) -> bool, n: int)
    requires
        0 <= n <= s.len(),
        forall|i: int| 0 <= i < n ==> !stop(s[i]),
    ensures
        n <= leading_run(s, stop) <= s.len(),
        n == s.len() || stop(s[n]) ==> leading_run(s, stop) == n,
    decreases s.len(),
{
    if s.len() == 0 || stop(s[0]) {
    } else {
        let rest = s.drop_first();
        if n == 0 {
            lemma_leading_run(rest, stop, 0);
        } else {
            assert forall|i: int| 0 <= i < n - 1 implies !stop(rest[i]) by {
                assert(rest[i] == s[i + 1]);
            }
            lemma_leading_run(rest, stop, n - 1);
        }
    }
}

/// The fields of `s`, as owned strings.
pub fn split(s: &str, separator: Separator) -> (r: Vec<String>)
    ensures
        views(r@) == fields(s@, separator.test()),
{
    let chars = chars_of(s);
    let ghost text = s@;
    let ghost sep = separator.test();
    let mut out: Vec<String> = Vec::new();
    let mut i: usize = 0;
    assert(text.skip(0) =~= text);
    while i < chars.len()
        invariant
            i <= chars.len(),
            chars@ == text,
            text == s@,
            sep == separator.test(),
            views(out@) + fields(text.skip(i as int), sep) == fields(text, sep),
        decreases chars.len() - i,
    {
        let ghost rest = text.skip(i as int);
        let ghost before = views(out@);
        if separator.separates(chars[i]) {
            assert(rest.drop_first() =~= text.skip(i + 1));
            i = i + 1;
        } else {
            let start = i;
            while i < chars.len() && !separator.separates(chars[i])
                invariant
                    start <= i <= chars.len(),
                    chars@ == text,
                    sep == separator.test(),
                    forall|j: int| start <= j < i ==> !sep(text[j]),
                decreases chars.len() - i,
            {
                i = i + 1;
            }
            proof {
                assert forall|j: int| 0 <= j < i - start implies !sep(rest[j]) by {
                    assert(rest[j] == text[start + j]);
                }
                lemma_leading_run(rest, sep, i - start);
                assert(rest.take(i - start) =~= text.subrange(start as int, i as int));
                assert(rest.skip(i - start) =~= text.skip(i as int));
            }
            out.push(s.substring_char(start, i).to_owned());
            proof {
                assert(views(out@) =~= before + seq![rest.take(i - start)]);
                assert(views(out@) + fields(text.skip(i as int), sep) =~= before + fields(
                    rest,
                    sep,
                ));
            }
        }
    }
    assert(views(out@) + fields(text.skip(i as int), sep) =~= views(out@));
    out
}

/// Whether a character is one of the ten decimal digits.
pub open spec fn is_digit(c: char) -> bool {
    48 <= c as u32 <= 57
}

/// The number that a decimal digit stands for.
pub open spec fn digit_value(c: char) -> nat {
    (c as u32 - 48) as nat
}

/// The test whether a character is no decimal digit.
pub open spec fn is_no_digit() -> spec_fn(char) -> bool {
    |c: char| !is_digit(c)
}

/// The number that a sequence of decimal digits stands for.
pub open spec fn decimal_value(digits: Seq<char>) -> nat
    decreases digits.len(),
{
    if digits.len() == 0 {
        0
    } else {
        decimal_value(digits.drop_last()) * 10 + digit_value(digits.last())
    }
}

/// Why a text is no count.
#[derive(Debug, Clone, Copy, PartialEq, Eq)]
pub enum CountError {
    /// The text is empty.
    Empty,
    /// The text holds something that is no digit where a digit must stand.
    InvalidDigit,
    /// The number is larger than a `usize` can hold.
    PosOverflow,
}

impl CountError {
    /// The message that goes with the error.
    pub open spec fn text(self) -> Seq<char> {
        match self {
            CountError::Empty => "cannot parse integer from empty string"@,
            CountError::InvalidDigit => "invalid digit found in string"@,
            CountError::PosOverflow => "number too large to fit in target type"@,
        }
    }

    /// The message that goes with the error.
    pub fn to_string(&self) -> (r: String)
        ensures
            r@ == self.text(),
    {
        match self {
            CountError::Empty => "cannot parse integer from empty string".to_owned(),
            CountError::InvalidDigit => "invalid digit found in string".to_owned(),
            CountError::PosOverflow => "number too large to fit in target type".to_owned(),
        }
    }
}

/// The count that a text stands for: an optional plus sign, then one or more
/// decimal digits. The digits are read from the left as far as they go. A
/// number too large for a `usize` is an overflow, whatever follows the
/// digits; otherwise anything left over, or no digit at all, is an invalid
/// digit.
pub open spec fn parsed_count(s: Seq<char>) -> Result<usize, CountError> {
    if s.len() == 0 {
        Err(CountError::Empty)
    } else {
        let digits = if s[0] == '+' {
            s.drop_first()
        } else {
            s
        };
        let run = digits.take(leading_run(digits, is_no_digit()) as int);
        if digits.len() == 0 {
            Err(CountError::InvalidDigit)
        } else if decimal_value(run) > usize::MAX {
            Err(CountError::PosOverflow)
        } else if run.len() < digits.len() {
            Err(CountError::InvalidDigit)
        } else {
            Ok(decimal_value(run) as usize)
        }
    }
}

/// A longer stretch of digits does not stand for a smaller number.
pub proof fn lemma_decimal_value_grows(digits: Seq<char>, shorter: int, longer: int)
    requires
        0 <= shorter <= longer <= digits.len(),
    ensures
        decimal_value(digits.take(shorter)) <= decimal_value(digits.take(longer)),
    decreases longer - shorter,
{
    if shorter < longer {
        lemma_decimal_value_grows(digits, shorter, longer - 1);
        assert(digits.take(longer).drop_last() =~= digits.take(longer - 1));
    }
}

/// Reads `token` as a count.
pub fn parse_count(token: &str) -> (r: Result<usize, CountError>)
    ensures
        r == parsed_count(token@),
{
    let chars = chars_of(token);
    if chars.len() == 0 {
        return Err(CountError::Empty);
    }
    let start: usize = if chars[0] == '+' {
        1
    } else {
        0
    };
    let ghost digits = if token@[0] == '+' {
        token@.drop_first()
    } else {
        token@
    };
    let ghost stop = is_no_digit();
    if start == chars.len() {
        return Err(CountError::InvalidDigit);
    }
    let mut value: usize = 0;
    let mut i: usize = start;
    proof {
        assert(digits.take(0) =~= Seq::<char>::empty());
        assert(digits =~= token@.skip(start as int));
    }
    while i < chars.len()
        invariant
            start <= i <= chars.len(),
            start <= 1,
            chars@ == token@,
            token@.len() > 0,
            digits == if token@[0] == '+' {
                token@.drop_first()
            } else {
                token@
            },
            digits == token@.skip(start as int),
            digits.len() > 0,
            stop == is_no_digit(),
            forall|j: int| 0 <= j < i - start ==> !stop(digits[j]),
            value == decimal_value(digits.take(i - start)),
        decreases chars.len() - i,
    {
        let ghost at = i - start;
        let n: u32 = chars[i] as u32;
        assert(digits[at] == chars@[i as int]);
        if n < 48 || n > 57 {
            proof {
                lemma_leading_run(digits, stop, at);
            }
            return Err(CountError::InvalidDigit);
        }
        let digit: usize = (n - 48) as usize;
        proof {
            lemma_leading_run(digits, stop, at + 1);
            lemma_decimal_value_grows(digits, at + 1, leading_run(digits, stop) as int);
            assert(digits.take(at + 1).drop_last() =~= digits.take(at));
            assert(decimal_value(digits.take(at + 1)) == value * 10 + digit);
        }
        let tens = match value.checked_mul(10) {
            Some(tens) => tens,
            None => {
                return Err(CountError::PosOverflow);
            },
        };
        value = match tens.checked_add(digit) {
            Some(sum) => sum,
            None => {
                return Err(CountError::PosOverflow);
            },
        };
        i = i + 1;
    }
    proof {
        lemma_leading_run(digits, stop, digits.len() as int);
        assert(digits.take(digits.len() as int) =~= digits);
    }
    Ok(value)
}

} // verus!
