//! Arithmetic on bare integer years and centuries.
//!
//! A "century" here is the human, 1-based count: the years 1900..=1999 are
//! in the 20th century, so the century is one more than the year divided
//! by one hundred.

use vstd::prelude::*;

verus! {

/// Number of years in a century.
pub const CENTURY_DURATION: u16 = 100;

/// The century guessed for a two-digit year: before 60 the 21st, else the 20th.
pub open spec fn guessed_century(two_digit: int) -> int {
    if two_digit < 60 {
        21
    } else {
        20
    }
}

/// The year with the given century and last two digits.
pub open spec fn year_of(century: int, two_digit: int) -> int {
    (century - 1) * 100 + two_digit
}

/// The four-digit year guessed for a two-digit year.
pub open spec fn guessed_year(two_digit: int) -> int {
    year_of(guessed_century(two_digit), two_digit)
}

pub fn guess_century(two_digit_year: u16) -> (r: u8)
    ensures
        r == guessed_century(two_digit_year as int),
{
    if two_digit_year < 60 {
        21
    } else {
        20
    }
}

pub fn compose_year(century: u16, two_digit: u16) -> (r: u16)
    requires
        1 <= century,
        year_of(century as int, two_digit as int) <= u16::MAX,
    ensures
        r == year_of(century as int, two_digit as int),
{
    (century - 1) * CENTURY_DURATION + two_digit
}

pub fn guess_four_digit_from_two_digit(two_digit: u16) -> (r: u16)
    requires
        two_digit < 100,
    ensures
        r == guessed_year(two_digit as int),
{
    compose_year(guess_century(two_digit) as u16, two_digit)
}

pub fn get_century(year: u16) -> (r: u16)
    ensures
        r == year / 100 + 1,
{
    year / CENTURY_DURATION + 1
}

pub fn get_two_digit_year(year: u16) -> (r: u16)
    ensures
        r == year % 100,
{
    year % CENTURY_DURATION
}

} // verus!
