use vstd::prelude::*;

use std::num::IntErrorKind;

verus! {

/// How the set-up picks one of `count` available items (hosts, devices or
/// stream configurations).
#[derive(Debug, Clone, Copy, PartialEq, Eq, Structural)]
pub enum Selection {
    /// Nothing is available: the set-up cannot go on.
    NoneAvailable,
    /// Exactly one is available: it is taken, with no question asked.
    Only,
    /// Several are available: the user is asked to choose.
    AskUser,
}

/// What the set-up does when `count` items are available.
pub fn selection_for(count: usize) -> (selection: Selection)
    ensures
        selection == (if count == 0 {
            Selection::NoneAvailable
        } else if count == 1 {
            Selection::Only
        } else {
            Selection::AskUser
        }),
{
    match count {
        0 => Selection::NoneAvailable,
        1 => Selection::Only,
        _ => Selection::AskUser,
    }
}

/// `c` is one of the ASCII digits `0` to `9`.
pub open spec fn is_decimal_digit(c: char) -> bool {
    '0' as int <= c as int <= '9' as int
}

/// The number that the decimal digits `digits` write, most significant first.
pub open spec fn decimal_value(digits: Seq<char>) -> nat
    decreases digits.len(),
{
    if digits.len() == 0 {
        0
    } else {
        decimal_value(digits.drop_last()) * 10 + (digits.last() as int - '0' as int) as nat
    }
}

/// The part of `text` that must be digits: all of it, less a leading `+`.
pub open spec fn unsigned_digits(text: Seq<char>) -> Seq<char> {
    if text.len() > 0 && text[0] == '+' {
        text.drop_first()
    } else {
        text
    }
}

/// Every character of `digits` is a decimal digit.
pub open spec fn all_decimal_digits(digits: Seq<char>) -> bool {
    forall|i: int| 0 <= i < digits.len() ==> is_decimal_digit(#[trigger] digits[i])
}

/// The `usize` that `text` writes in decimal: an optional `+` followed by at
/// least one digit and nothing else, of a value that fits in a `usize`;
/// `None` for any other text.
pub open spec fn decimal_usize(text: Seq<char>) -> Option<usize> {
    let digits = unsigned_digits(text);
    if digits.len() > 0 && all_decimal_digits(digits) && decimal_value(digits) <= usize::MAX {
        Some(decimal_value(digits) as usize)
    } else {
        None
    }
}

/// Decimal notation is positional: the digits `high` followed by the digits
/// `low` write `high`'s number times ten to the number of digits in `low`,
/// plus `low`'s number.
pub proof fn lemma_decimal_value_positional(high: Seq<char>, low: Seq<char>)
    ensures
        decimal_value(high + low) == decimal_value(high) * vstd::arithmetic::power::pow(10, low.len())
            + decimal_value(low),
    decreases low.len(),
{
    reveal(vstd::arithmetic::power::pow);
    if low.len() == 0 {
        assert(high + low =~= high);
        assert(vstd::arithmetic::power::pow(10, 0) == 1);
    } else {
        let rest = low.drop_last();
        lemma_decimal_value_positional(high, rest);
        assert((high + low).drop_last() =~= high + rest);
        assert((high + low).last() == low.last());
        let p = vstd::arithmetic::power::pow(10, rest.len());
        assert(vstd::arithmetic::power::pow(10, low.len()) == 10 * p);
        let hv = decimal_value(high) as int;
        let rv = decimal_value(rest) as int;
        let d = (low.last() as int - '0' as int) as nat as int;
        assert((hv * p + rv) * 10 + d == hv * (10 * p) + (rv * 10 + d)) by (nonlinear_arith);
    }
}

/// A single digit writes its own value, and `n` digits write a number below
/// ten to the `n`.
pub proof fn lemma_decimal_value_bounds(digits: Seq<char>)
    requires
        all_decimal_digits(digits),
    ensures
        0 <= decimal_value(digits) < vstd::arithmetic::power::pow(10, digits.len()),
        digits.len() == 1 ==> decimal_value(digits) == digits[0] as int - '0' as int,
    decreases digits.len(),
{
    reveal(vstd::arithmetic::power::pow);
    if digits.len() > 0 {
        let rest = digits.drop_last();
        assert(all_decimal_digits(rest)) by {
            assert forall|i: int| 0 <= i < rest.len() implies is_decimal_digit(#[trigger] rest[i]) by {
                assert(rest[i] == digits[i]);
            }
        }
        assert(is_decimal_digit(digits[digits.len() - 1]));
        lemma_decimal_value_bounds(rest);
        let p = vstd::arithmetic::power::pow(10, rest.len());
        assert(vstd::arithmetic::power::pow(10, digits.len()) == 10 * p);
        let rv = decimal_value(rest) as int;
        let d = (digits.last() as int - '0' as int) as nat as int;
        assert(0 <= d <= 9);
        assert(rv * 10 + d < 10 * p) by (nonlinear_arith)
            requires
                0 <= rv < p,
                0 <= d <= 9,
        ;
        if digits.len() == 1 {
            assert(rest =~= Seq::<char>::empty());
        }
    }
}

/// A text that is a number is not empty, and it starts with a digit or with
/// `+`; a leading `+` in front of digits changes nothing.
pub proof fn lemma_decimal_usize_sign(digits: Seq<char>)
    ensures
        decimal_usize(Seq::empty()) is None,
        digits.len() > 0 && digits[0] != '+' ==> decimal_usize(seq!['+'] + digits) == decimal_usize(digits),
        decimal_usize(digits) is Some ==> digits.len() > 0 && (digits[0] == '+' || is_decimal_digit(
            digits[0],
        )),
{
    if digits.len() > 0 && digits[0] != '+' {
        assert((seq!['+'] + digits).drop_first() =~= digits);
    }
    if decimal_usize(digits) is Some && digits[0] != '+' {
        assert(unsigned_digits(digits) == digits);
        assert(is_decimal_digit(digits[0]));
    }
}

/// Why a text is not a `usize`, as `std::num::IntErrorKind` tells it.
#[derive(Debug, Clone, Copy, PartialEq, Eq, Structural)]
pub enum ParseErrorKind {
    /// The text is empty.
    Empty,
    /// The text holds a character that is not a digit where a digit is
    /// due, or is a lone sign.
    InvalidDigit,
    /// The number is larger than `usize::MAX`.
    PosOverflow,
    /// The number is smaller than the type's minimum (never for `usize`).
    NegOverflow,
    /// The value is zero where zero is not allowed (never for `usize`).
    Zero,
    /// A kind that a later version of std may add.
    Other,
}

/// The kind of error that reading `text` as a `usize` gives, where it is
/// fixed: `Empty` for empty text; `InvalidDigit` for a lone `+`, and for a
/// text whose first character that is not a digit follows digits that still
/// fit in a `usize`; `PosOverflow` for digits alone that write a number above
/// `usize::MAX`. `None` where the text parses, and where digits already
/// beyond `usize::MAX` come before a character that is not a digit.
pub open spec fn expected_error_kind(text: Seq<char>) -> Option<ParseErrorKind> {
    let digits = unsigned_digits(text);
    if text.len() == 0 {
        Some(ParseErrorKind::Empty)
    } else if digits.len() == 0 {
        Some(ParseErrorKind::InvalidDigit)
    } else if all_decimal_digits(digits) {
        if decimal_value(digits) > usize::MAX {
            Some(ParseErrorKind::PosOverflow)
        } else {
            None
        }
    } else if exists|i: int|
        0 <= i < digits.len() && !is_decimal_digit(#[trigger] digits[i]) && all_decimal_digits(
            digits.take(i),
        ) && decimal_value(digits.take(i)) <= usize::MAX {
        Some(ParseErrorKind::InvalidDigit)
    } else {
        None
    }
}

/// `parsed` is what reading `text` as a decimal `usize` gives: the value
/// when the text writes one, otherwise an error of the kind that the text
/// calls for. Empty text, and only empty text, gives `Empty`; any other
/// failure gives `InvalidDigit` or `PosOverflow`, as `expected_error_kind`
/// fixes it where it does.
pub open spec fn parses_as(parsed: Result<usize, ParseErrorKind>, text: Seq<char>) -> bool {
    match parsed {
        Ok(value) => decimal_usize(text) == Some(value),
        Err(kind) => {
            &&& decimal_usize(text) is None
            &&& (kind is Empty <==> text.len() == 0)
            &&& (kind is Empty || kind is InvalidDigit || kind is PosOverflow)
            &&& (expected_error_kind(text) matches Some(expected) ==> kind == expected)
        },
    }
}

/// Parses `text` with `str::parse::<usize>` (`<usize as FromStr>::from_str`,
/// which is `usize::from_str_radix(text, 10)`) and hands on the error's
/// `ParseIntError::kind()`. Its documentation: the text is an optional `+`
/// followed by decimal digits and nothing else, and a value beyond
/// `usize::MAX` is an error; `Empty` is the kind for empty text,
/// `InvalidDigit` for a character that is not a digit or a lone sign,
/// `PosOverflow` for a number too large; `NegOverflow` and `Zero` arise only
/// for signed and non-zero types. The contract claims that and no more: it
/// leaves unsaid which of `InvalidDigit` and `PosOverflow` comes for digits
/// beyond `usize::MAX` followed by a character that is not a digit.
#[verifier::external_body]
fn parse_usize(text: &str) -> (parsed: Result<usize, ParseErrorKind>)
    ensures
        parses_as(parsed, text@),
{
    match text.parse::<usize>() {
        Ok(value) => Ok(value),
        Err(err) => Err(match err.kind() {
            IntErrorKind::Empty => ParseErrorKind::Empty,
            IntErrorKind::InvalidDigit => ParseErrorKind::InvalidDigit,
            IntErrorKind::PosOverflow => ParseErrorKind::PosOverflow,
            IntErrorKind::NegOverflow => ParseErrorKind::NegOverflow,
            IntErrorKind::Zero => ParseErrorKind::Zero,
            _ => ParseErrorKind::Other,
        }),
    }
}

/// The line the user typed, less its last character (the newline that ends
/// it), read as a decimal index.
pub fn read_index(line: &str) -> (index: Result<usize, ParseErrorKind>)
    requires
        line@.len() > 0,
        (line@.last() as int) < 128,
    ensures
        parses_as(index, line@.drop_last()),
{
    let n = line.unicode_len();
    let typed = line.substring_char(0, n - 1);
    assert(typed@ == line@.drop_last());
    parse_usize(typed)
}

/// The answer to one question of the set-up, read from the line the user
/// typed.
#[derive(Debug, Clone, Copy, PartialEq, Eq, Structural)]
pub enum Choice {
    /// A valid index.
    Chosen(usize),
    /// A number, but not one of the offered indices.
    OutOfRange,
    /// Not a number.
    Unparsable(ParseErrorKind),
}

/// The choice the answer `line` makes among indices for which `accepts`
/// holds.
pub open spec fn choice_matches(choice: Choice, line: Seq<char>, accepts: spec_fn(usize) -> bool) -> bool {
    match choice {
        Choice::Chosen(i) => decimal_usize(line.drop_last()) == Some(i) && accepts(i),
        Choice::OutOfRange => match decimal_usize(line.drop_last()) {
            Some(i) => !accepts(i),
            None => false,
        },
        Choice::Unparsable(kind) => parses_as(Err(kind), line.drop_last()),
    }
}

/// Reads the user's choice among `n_hosts` hosts: indices `0` to
/// `n_hosts - 1` are accepted.
pub fn check_host_choice(line: &str, n_hosts: usize) -> (choice: Choice)
    requires
        line@.len() > 0,
        (line@.last() as int) < 128,
    ensures
        choice_matches(choice, line@, |i: usize| i < n_hosts),
{
    match read_index(line) {
        Ok(i) => if i < n_hosts {
            Choice::Chosen(i)
        } else {
            Choice::OutOfRange
        },
        Err(err) => Choice::Unparsable(err),
    }
}

/// Reads the user's choice among `n_listed` listed devices or stream
/// configurations: indices `0` to `n_listed` are accepted, the count itself
/// included.
fn check_listed_choice(line: &str, n_listed: usize) -> (choice: Choice)
    requires
        line@.len() > 0,
        (line@.last() as int) < 128,
    ensures
        choice_matches(choice, line@, |i: usize| i <= n_listed),
{
    match read_index(line) {
        Ok(i) => if i <= n_listed {
            Choice::Chosen(i)
        } else {
            Choice::OutOfRange
        },
        Err(err) => Choice::Unparsable(err),
    }
}

/// Reads the user's choice among `n_devices` listed devices: indices `0` to
/// `n_devices` are accepted, the count itself included.
pub fn check_device_choice(line: &str, n_devices: usize) -> (choice: Choice)
    requires
        line@.len() > 0,
        (line@.last() as int) < 128,
    ensures
        choice_matches(choice, line@, |i: usize| i <= n_devices),
{
    check_listed_choice(line, n_devices)
}

/// Reads the user's choice among `n_configs` listed stream configurations:
/// indices `0` to `n_configs` are accepted, the count itself included.
pub fn check_config_choice(line: &str, n_configs: usize) -> (choice: Choice)
    requires
        line@.len() > 0,
        (line@.last() as int) < 128,
    ensures
        choice_matches(choice, line@, |i: usize| i <= n_configs),
{
    check_listed_choice(line, n_configs)
}

} // verus!
