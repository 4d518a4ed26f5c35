//! Years as written: two digits (century unknown) or four digits, and the
//! heuristics that turn them, alone or in pairs, into four-digit years.

use vstd::prelude::*;
use crate::century::{
    compose_year, get_century, get_two_digit_year, guess_four_digit_from_two_digit,
    guessed_century, guessed_year, year_of,
};

verus! {

/// Which guesses are allowed when a range of years is made of four digits.
#[derive(Debug, Clone, Copy)]
pub struct YearRangeNormalization {
    /// Guess the century when no four-digit year in the range implies one.
    pub allow_century_guess: bool,
    /// Two two-digit years with the second smaller than the first span Y2K.
    pub allow_assuming_y2k_span: bool,
    /// Let the century implied by one end of a range roll over by one for the other end.
    pub allow_mixed_size_implied_century_rollover: bool,
}

impl YearRangeNormalization {
    /// All guesses disallowed.
    pub fn new() -> (r: YearRangeNormalization)
        ensures
            !r.allow_century_guess,
            !r.allow_assuming_y2k_span,
            !r.allow_mixed_size_implied_century_rollover,
    {
        YearRangeNormalization {
            allow_century_guess: false,
            allow_assuming_y2k_span: false,
            allow_mixed_size_implied_century_rollover: false,
        }
    }

    pub fn get_allow_century_guess(&self) -> (r: bool)
        ensures
            r == self.allow_century_guess,
    {
        self.allow_century_guess
    }

    pub fn get_allow_assuming_y2k_span(&self) -> (r: bool)
        ensures
            r == self.allow_assuming_y2k_span,
    {
        self.allow_assuming_y2k_span
    }

    pub fn get_allow_mixed_size_implied_century_rollover(&self) -> (r: bool)
        ensures
            r == self.allow_mixed_size_implied_century_rollover,
    {
        self.allow_mixed_size_implied_century_rollover
    }

    pub fn allow_century_guess(self, allow: bool) -> (r: YearRangeNormalization)
        ensures
            r == (YearRangeNormalization { allow_century_guess: allow, ..self }),
    {
        YearRangeNormalization { allow_century_guess: allow, ..self }
    }

    pub fn allow_assuming_y2k_span(self, allow: bool) -> (r: YearRangeNormalization)
        ensures
            r == (YearRangeNormalization { allow_assuming_y2k_span: allow, ..self }),
    {
        YearRangeNormalization { allow_assuming_y2k_span: allow, ..self }
    }

    pub fn allow_mixed_size_implied_century_rollover(self, allow: bool) -> (r:
        YearRangeNormalization)
        ensures
            r == (YearRangeNormalization { allow_mixed_size_implied_century_rollover: allow, ..self }),
    {
        YearRangeNormalization { allow_mixed_size_implied_century_rollover: allow, ..self }
    }
}

impl Default for YearRangeNormalization {
    fn default() -> (r: YearRangeNormalization)
        ensures
            !r.allow_century_guess,
            !r.allow_assuming_y2k_span,
            !r.allow_mixed_size_implied_century_rollover,
    {
        YearRangeNormalization::new()
    }
}

/// A two-digit year (0..=99): it wraps every hundred years.
#[derive(Debug, Clone, Copy, PartialEq, Eq, Structural, PartialOrd, Ord, Hash)]
pub struct TwoDigitYear(u16);

/// A four-digit year (above 99): it knows its century.
#[derive(Debug, Clone, Copy, PartialEq, Eq, Structural, PartialOrd, Ord, Hash)]
pub struct FourDigitYear(u16);

/// A year of either width.
#[derive(Debug, Clone, Copy, PartialEq, Eq, Structural)]
pub enum YearExpr {
    TwoDigit(TwoDigitYear),
    FourDigit(FourDigitYear),
}

impl TwoDigitYear {
    pub closed spec fn value(&self) -> int {
        self.0 as int
    }

    #[verifier::type_invariant]
    spec fn below_hundred(&self) -> bool {
        self.0 < 100
    }

    pub fn new(year: u16) -> (r: TwoDigitYear)
        requires
            year < 100,
        ensures
            r.value() == year,
    {
        TwoDigitYear(year)
    }
}

impl FourDigitYear {
    pub closed spec fn value(&self) -> int {
        self.0 as int
    }

    #[verifier::type_invariant]
    spec fn above_ninety_nine(&self) -> bool {
        self.0 > 99
    }

    pub fn new(year: u16) -> (r: FourDigitYear)
        requires
            year > 99,
        ensures
            r.value() == year,
    {
        FourDigitYear(year)
    }

    /// A four-digit year always knows its century.
    pub fn century(&self) -> (r: u16)
        ensures
            r == self.value() / 100 + 1,
    {
        get_century(self.0)
    }
}

impl YearExpr {
    /// The number as written.
    pub open spec fn value(self) -> int {
        match self {
            YearExpr::TwoDigit(y) => y.value(),
            YearExpr::FourDigit(y) => y.value(),
        }
    }

    /// The value fits the width: below 100 for two digits, above 99 for four.
    pub open spec fn within_width(self) -> bool {
        match self {
            YearExpr::TwoDigit(y) => 0 <= y.value() < 100,
            YearExpr::FourDigit(y) => 99 < y.value(),
        }
    }

    /// The last two digits.
    pub open spec fn tail(self) -> int {
        match self {
            YearExpr::TwoDigit(y) => y.value(),
            YearExpr::FourDigit(y) => y.value() % 100,
        }
    }

    /// The century, where the year knows it.
    pub open spec fn known_century(self) -> Option<int> {
        match self {
            YearExpr::TwoDigit(_) => None,
            YearExpr::FourDigit(y) => Some(y.value() / 100 + 1),
        }
    }

    /// The four-digit year, guessing the century of a two-digit year.
    pub open spec fn guessed(self) -> int {
        match self {
            YearExpr::TwoDigit(y) => guessed_year(y.value()),
            YearExpr::FourDigit(y) => y.value(),
        }
    }

    /// The four-digit year, taking the century of a two-digit year from `century`.
    pub open spec fn hinted(self, century: int) -> int {
        match self {
            YearExpr::TwoDigit(y) => year_of(century, y.value()),
            YearExpr::FourDigit(y) => y.value(),
        }
    }

    /// `century` makes a four-digit year of this one that fits in `u16`.
    pub open spec fn hint_fits(self, century: int) -> bool {
        match self {
            YearExpr::TwoDigit(y) => 2 <= century && year_of(century, y.value()) <= u16::MAX,
            YearExpr::FourDigit(_) => true,
        }
    }

    /// The two-digit year `v`.
    pub closed spec fn two_of(v: int) -> YearExpr {
        YearExpr::TwoDigit(TwoDigitYear(v as u16))
    }

    /// The four-digit year `v`.
    pub closed spec fn four_of(v: int) -> YearExpr {
        YearExpr::FourDigit(FourDigitYear(v as u16))
    }

    pub broadcast proof fn lemma_two_of(v: int)
        requires
            0 <= v < 100,
        ensures
            #[trigger] YearExpr::two_of(v) is TwoDigit,
            YearExpr::two_of(v).value() == v,
    {
    }

    pub broadcast proof fn lemma_four_of(v: int)
        requires
            99 < v <= u16::MAX,
        ensures
            #[trigger] YearExpr::four_of(v) is FourDigit,
            YearExpr::four_of(v).value() == v,
    {
    }

    /// A year is determined by its width and its value.
    pub broadcast proof fn lemma_expr_parts(y: YearExpr)
        ensures
            #[trigger] y.value() <= u16::MAX,
            0 <= y.value(),
            y is TwoDigit ==> y == YearExpr::two_of(y.value()),
            y is FourDigit ==> y == YearExpr::four_of(y.value()),
    {
    }

    /// Make a two-digit year from an integer.
    pub fn new_two_digit(y: u16) -> (r: YearExpr)
        requires
            y < 100,
        ensures
            r is TwoDigit,
            r.value() == y,
    {
        YearExpr::TwoDigit(TwoDigitYear::new(y))
    }

    /// Make a four-digit year from an integer.
    pub fn new_four_digit(y: u16) -> (r: YearExpr)
        requires
            y > 99,
        ensures
            r is FourDigit,
            r.value() == y,
    {
        YearExpr::FourDigit(FourDigitYear::new(y))
    }
}

/// Operations on a year of either width.
pub trait RawYear: Sized {
    spec fn expr(&self) -> YearExpr;

    /// The century (1 + the year's leading digits), if known.
    fn try_century(&self) -> (r: Option<u16>)
        ensures
            match r {
                Some(c) => self.expr().known_century() == Some(c as int),
                None => self.expr().known_century() is None,
            },
    ;

    /// The last two digits of the year.
    fn two_digit(&self) -> (r: TwoDigitYear)
        ensures
            r.value() == self.expr().tail(),
    ;

    /// The year as a four-digit year, if it is one.
    fn try_as_four_digit(&self) -> (r: Option<FourDigitYear>)
        ensures
            match r {
                Some(y) => self.expr() == YearExpr::FourDigit(y),
                None => self.expr() is TwoDigit,
            },
    ;

    /// The year as a four-digit year, guessing the century where needed.
    fn to_four_digit(&self) -> (r: FourDigitYear)
        ensures
            r.value() == self.expr().guessed(),
    ;

    /// The year as a four-digit year, taking the century from `century` where needed.
    fn to_four_digit_with_century_hint(&self, century: u16) -> (r: FourDigitYear)
        requires
            self.expr().hint_fits(century as int),
        ensures
            r.value() == self.expr().hinted(century as int),
    ;

    /// The year in the enum of both widths.
    fn to_year_expr(&self) -> (r: YearExpr)
        ensures
            r == self.expr(),
    ;

    /// The number as written.
    fn into_inner(self) -> (r: u16)
        ensures
            r == self.expr().value(),
    ;
}

impl RawYear for TwoDigitYear {
    open spec fn expr(&self) -> YearExpr {
        YearExpr::TwoDigit(*self)
    }

    fn try_century(&self) -> (r: Option<u16>) {
        None
    }

    fn two_digit(&self) -> (r: TwoDigitYear) {
        *self
    }

    fn try_as_four_digit(&self) -> (r: Option<FourDigitYear>) {
        None
    }

    fn to_four_digit(&self) -> (r: FourDigitYear) {
        proof {
            use_type_invariant(self);
        }
        FourDigitYear(guess_four_digit_from_two_digit(self.0))
    }

    fn to_four_digit_with_century_hint(&self, century: u16) -> (r: FourDigitYear) {
        FourDigitYear(compose_year(century, self.0))
    }

    fn to_year_expr(&self) -> (r: YearExpr) {
        YearExpr::TwoDigit(*self)
    }

    fn into_inner(self) -> (r: u16) {
        self.0
    }
}

impl RawYear for FourDigitYear {
    open spec fn expr(&self) -> YearExpr {
        YearExpr::FourDigit(*self)
    }

    fn try_century(&self) -> (r: Option<u16>) {
        Some(self.century())
    }

    fn two_digit(&self) -> (r: TwoDigitYear) {
        TwoDigitYear(get_two_digit_year(self.0))
    }

    fn try_as_four_digit(&self) -> (r: Option<FourDigitYear>) {
        Some(*self)
    }

    fn to_four_digit(&self) -> (r: FourDigitYear) {
        *self
    }

    fn to_four_digit_with_century_hint(&self, _century: u16) -> (r: FourDigitYear) {
        *self
    }

    fn to_year_expr(&self) -> (r: YearExpr) {
        YearExpr::FourDigit(*self)
    }

    fn into_inner(self) -> (r: u16) {
        self.0
    }
}

impl RawYear for YearExpr {
    open spec fn expr(&self) -> YearExpr {
        *self
    }

    fn try_century(&self) -> (r: Option<u16>) {
        match self {
            YearExpr::TwoDigit(y) => y.try_century(),
            YearExpr::FourDigit(y) => y.try_century(),
        }
    }

    fn two_digit(&self) -> (r: TwoDigitYear) {
        match self {
            YearExpr::TwoDigit(y) => y.two_digit(),
            YearExpr::FourDigit(y) => y.two_digit(),
        }
    }

    fn try_as_four_digit(&self) -> (r: Option<FourDigitYear>) {
        match self {
            YearExpr::TwoDigit(_) => None,
            YearExpr::FourDigit(y) => Some(*y),
        }
    }

    fn to_four_digit(&self) -> (r: FourDigitYear) {
        match self {
            YearExpr::TwoDigit(y) => y.to_four_digit(),
            YearExpr::FourDigit(y) => y.to_four_digit(),
        }
    }

    fn to_four_digit_with_century_hint(&self, century: u16) -> (r: FourDigitYear) {
        match self {
            YearExpr::TwoDigit(y) => y.to_four_digit_with_century_hint(century),
            YearExpr::FourDigit(y) => y.to_four_digit_with_century_hint(century),
        }
    }

    fn to_year_expr(&self) -> (r: YearExpr) {
        *self
    }

    fn into_inner(self) -> (r: u16) {
        match self {
            YearExpr::TwoDigit(y) => y.into_inner(),
            YearExpr::FourDigit(y) => y.into_inner(),
        }
    }
}

/// The guess for the pair makes four-digit years that the types can hold:
/// for a four/two pair the end it makes must fit in `u16`; for a two/four
/// pair whose century rolls back, the end must be 200 or later so that the
/// beginning it makes still has four digits. The other shapes need nothing.
pub open spec fn pair_fits(b: YearExpr, e: YearExpr) -> bool {
    match (b, e) {
        (YearExpr::FourDigit(_), YearExpr::TwoDigit(_)) => guessed_range(b, e).1 <= u16::MAX,
        (YearExpr::TwoDigit(_), YearExpr::FourDigit(_)) => b.value() > e.value() % 100 ==> e.value()
            >= 200,
        _ => true,
    }
}

/// The best guess of four-digit years for a pair; it always exists, though
/// some guesses are dubious.
pub open spec fn guessed_range(b: YearExpr, e: YearExpr) -> (int, int) {
    let x = b.value();
    let y = e.value();
    match (b, e) {
        (YearExpr::FourDigit(_), YearExpr::FourDigit(_)) => (x, y),
        (YearExpr::TwoDigit(_), YearExpr::TwoDigit(_)) => if y < x {
            (year_of(20, x), year_of(21, y))
        } else {
            (year_of(guessed_century(x), x), year_of(guessed_century(x), y))
        },
        (YearExpr::FourDigit(_), YearExpr::TwoDigit(_)) => if y < x % 100 {
            (x, year_of(x / 100 + 2, y))
        } else {
            (x, year_of(x / 100 + 1, y))
        },
        (YearExpr::TwoDigit(_), YearExpr::FourDigit(_)) => if x <= y % 100 {
            (year_of(y / 100 + 1, x), y)
        } else {
            (year_of(y / 100, x), y)
        },
    }
}

/// Whether `o` allows the guess for the pair: four/four must be in order;
/// two/two in order needs the century guess, out of order the Y2K span;
/// a mixed pair needs the rollover flag only where the century rolls over.
pub open spec fn range_allowed(b: YearExpr, e: YearExpr, o: YearRangeNormalization) -> bool {
    let x = b.value();
    let y = e.value();
    match (b, e) {
        (YearExpr::FourDigit(_), YearExpr::FourDigit(_)) => x <= y,
        (YearExpr::TwoDigit(_), YearExpr::TwoDigit(_)) => if x <= y {
            o.allow_century_guess
        } else {
            o.allow_assuming_y2k_span
        },
        (YearExpr::FourDigit(_), YearExpr::TwoDigit(_)) => x % 100 <= y
            || o.allow_mixed_size_implied_century_rollover,
        (YearExpr::TwoDigit(_), YearExpr::FourDigit(_)) => x <= y % 100
            || o.allow_mixed_size_implied_century_rollover,
    }
}

/// The proper four-digit range for a pair under `o`, if `o` allows one.
pub open spec fn normalized_range(b: YearExpr, e: YearExpr, o: YearRangeNormalization) -> Option<
    (int, int),
> {
    if range_allowed(b, e, o) {
        Some(guessed_range(b, e))
    } else {
        None
    }
}

/// Where the guesses are allowed, the range that they make is in order.
pub proof fn lemma_normalized_ordered(b: YearExpr, e: YearExpr, o: YearRangeNormalization)
    requires
        b.within_width(),
        e.within_width(),
        pair_fits(b, e),
        range_allowed(b, e, o),
    ensures
        guessed_range(b, e).0 <= guessed_range(b, e).1,
        100 <= guessed_range(b, e).0,
        guessed_range(b, e).1 <= u16::MAX,
{
    broadcast use YearExpr::lemma_expr_parts;

    vstd::arithmetic::div_mod::lemma_fundamental_div_mod(b.value(), 100);
    vstd::arithmetic::div_mod::lemma_fundamental_div_mod(e.value(), 100);
}

/// A pair of years read as a range.
pub trait RawYearRange {
    spec fn begin_expr(&self) -> YearExpr;

    spec fn end_expr(&self) -> YearExpr;

    /// The beginning year.
    fn begin(&self) -> (r: YearExpr)
        ensures
            r == self.begin_expr(),
    ;

    /// The ending year.
    fn end(&self) -> (r: YearExpr)
        ensures
            r == self.end_expr(),
    ;

    /// Both ends as four-digit years, guessing where required.
    fn to_four_digit_range(&self) -> (r: (FourDigitYear, FourDigitYear))
        requires
            pair_fits(self.begin_expr(), self.end_expr()),
        ensures
            (r.0.value(), r.1.value()) == guessed_range(self.begin_expr(), self.end_expr()),
    ;
}

/// A pair of years that can be turned into a proper range under a configuration.
pub trait ConfigurableRawYearRange: RawYearRange {
    /// The proper four-digit range, where `options` allow the guesses it takes.
    fn try_to_four_digit_range(&self, options: YearRangeNormalization) -> (r: Option<
        (FourDigitYear, FourDigitYear),
    >)
        requires
            range_allowed(self.begin_expr(), self.end_expr(), options) ==> pair_fits(
                self.begin_expr(),
                self.end_expr(),
            ),
        ensures
            match r {
                Some(p) => normalized_range(self.begin_expr(), self.end_expr(), options) == Some(
                    (p.0.value(), p.1.value()),
                ),
                None => normalized_range(self.begin_expr(), self.end_expr(), options) is None,
            },
    ;
}

/// A pair of years of one width.
pub trait IsProper: RawYearRange {
    /// Is the beginning year at most the end year? (Two two-digit years are
    /// taken to share their century.)
    fn is_proper(&self) -> (r: bool)
        ensures
            r == (self.begin_expr().value() <= self.end_expr().value()),
    ;

    /// Are the two years equal?
    fn is_single_year(&self) -> (r: bool)
        ensures
            r == (self.begin_expr().value() == self.end_expr().value()),
    ;
}

/// A pair of years of any widths.
pub trait TryIsProper {
    spec fn pair(&self) -> (YearExpr, YearExpr);

    /// Whether the range is proper, where that can be known without guessing:
    /// both years of the same width.
    fn try_is_proper(&self) -> (r: Option<bool>)
        ensures
            match r {
                Some(p) => (self.pair().0 is TwoDigit <==> self.pair().1 is TwoDigit) && p == (
                self.pair().0.value() <= self.pair().1.value()),
                None => (self.pair().0 is TwoDigit <==> !(self.pair().1 is TwoDigit)),
            },
    ;
}

impl RawYearRange for (FourDigitYear, FourDigitYear) {
    open spec fn begin_expr(&self) -> YearExpr {
        YearExpr::FourDigit(self.0)
    }

    open spec fn end_expr(&self) -> YearExpr {
        YearExpr::FourDigit(self.1)
    }

    fn begin(&self) -> (r: YearExpr) {
        self.0.to_year_expr()
    }

    fn end(&self) -> (r: YearExpr) {
        self.1.to_year_expr()
    }

    fn to_four_digit_range(&self) -> (r: (FourDigitYear, FourDigitYear)) {
        *self
    }
}

impl ConfigurableRawYearRange for (FourDigitYear, FourDigitYear) {
    fn try_to_four_digit_range(&self, options: YearRangeNormalization) -> (r: Option<
        (FourDigitYear, FourDigitYear),
    >) {
        if self.0.0 <= self.1.0 {
            Some(*self)
        } else {
            None
        }
    }
}

impl IsProper for (FourDigitYear, FourDigitYear) {
    fn is_proper(&self) -> (r: bool) {
        self.0.0 <= self.1.0
    }

    fn is_single_year(&self) -> (r: bool) {
        self.0.0 == self.1.0
    }
}

impl RawYearRange for (TwoDigitYear, TwoDigitYear) {
    open spec fn begin_expr(&self) -> YearExpr {
        YearExpr::TwoDigit(self.0)
    }

    open spec fn end_expr(&self) -> YearExpr {
        YearExpr::TwoDigit(self.1)
    }

    fn begin(&self) -> (r: YearExpr) {
        self.0.to_year_expr()
    }

    fn end(&self) -> (r: YearExpr) {
        self.1.to_year_expr()
    }

    fn to_four_digit_range(&self) -> (r: (FourDigitYear, FourDigitYear)) {
        let b = self.0;
        let e = self.1;
        proof {
            use_type_invariant(&b);
            use_type_invariant(&e);
        }
        if e.0 < b.0 {
            // the range spans Y2K
            (b.to_four_digit_with_century_hint(20), e.to_four_digit_with_century_hint(21))
        } else {
            // guess the first year's century, and re-use it for the second year
            let b = b.to_four_digit();
            let e = e.to_four_digit_with_century_hint(b.century());
            (b, e)
        }
    }
}

impl ConfigurableRawYearRange for (TwoDigitYear, TwoDigitYear) {
    fn try_to_four_digit_range(&self, options: YearRangeNormalization) -> (r: Option<
        (FourDigitYear, FourDigitYear),
    >) {
        let b = self.0;
        let e = self.1;
        if b.0 <= e.0 {
            if options.get_allow_century_guess() {
                return Some(self.to_four_digit_range());
            }
        } else {
            if options.get_allow_assuming_y2k_span() {
                return Some(self.to_four_digit_range());
            }
        }
        None
    }
}

impl IsProper for (TwoDigitYear, TwoDigitYear) {
    fn is_proper(&self) -> (r: bool) {
        self.0.0 <= self.1.0
    }

    fn is_single_year(&self) -> (r: bool) {
        self.0.0 == self.1.0
    }
}

impl RawYearRange for (FourDigitYear, TwoDigitYear) {
    open spec fn begin_expr(&self) -> YearExpr {
        YearExpr::FourDigit(self.0)
    }

    open spec fn end_expr(&self) -> YearExpr {
        YearExpr::TwoDigit(self.1)
    }

    fn begin(&self) -> (r: YearExpr) {
        self.0.to_year_expr()
    }

    fn end(&self) -> (r: YearExpr) {
        self.1.to_year_expr()
    }

    fn to_four_digit_range(&self) -> (r: (FourDigitYear, FourDigitYear)) {
        let b = self.0;
        let e = self.1;
        proof {
            use_type_invariant(&b);
            use_type_invariant(&e);
        }
        if e.0 < b.two_digit().0 {
            // the range spans the turn of the century
            let century = b.century();
            (b, e.to_four_digit_with_century_hint(century + 1))
        } else {
            // propagate the first year's century
            (b, e.to_four_digit_with_century_hint(b.century()))
        }
    }
}

impl ConfigurableRawYearRange for (FourDigitYear, TwoDigitYear) {
    fn try_to_four_digit_range(&self, options: YearRangeNormalization) -> (r: Option<
        (FourDigitYear, FourDigitYear),
    >) {
        if self.0.two_digit().0 <= self.1.0 || options.get_allow_mixed_size_implied_century_rollover() {
            Some(self.to_four_digit_range())
        } else {
            None
        }
    }
}

impl RawYearRange for (TwoDigitYear, FourDigitYear) {
    open spec fn begin_expr(&self) -> YearExpr {
        YearExpr::TwoDigit(self.0)
    }

    open spec fn end_expr(&self) -> YearExpr {
        YearExpr::FourDigit(self.1)
    }

    fn begin(&self) -> (r: YearExpr) {
        self.0.to_year_expr()
    }

    fn end(&self) -> (r: YearExpr) {
        self.1.to_year_expr()
    }

    fn to_four_digit_range(&self) -> (r: (FourDigitYear, FourDigitYear)) {
        let b = self.0;
        let e = self.1;
        proof {
            use_type_invariant(&b);
            use_type_invariant(&e);
        }
        if b.0 <= e.two_digit().0 {
            // propagate the second year's century
            (b.to_four_digit_with_century_hint(e.century()), e)
        } else {
            // the range spans the turn of the century
            let century = e.century();
            (b.to_four_digit_with_century_hint(century - 1), e)
        }
    }
}

impl ConfigurableRawYearRange for (TwoDigitYear, FourDigitYear) {
    fn try_to_four_digit_range(&self, options: YearRangeNormalization) -> (r: Option<
        (FourDigitYear, FourDigitYear),
    >) {
        if self.0.0 <= self.1.two_digit().0 || options.get_allow_mixed_size_implied_century_rollover() {
            Some(self.to_four_digit_range())
        } else {
            None
        }
    }
}

impl RawYearRange for (YearExpr, YearExpr) {
    open spec fn begin_expr(&self) -> YearExpr {
        self.0
    }

    open spec fn end_expr(&self) -> YearExpr {
        self.1
    }

    fn begin(&self) -> (r: YearExpr) {
        self.0
    }

    fn end(&self) -> (r: YearExpr) {
        self.1
    }

    fn to_four_digit_range(&self) -> (r: (FourDigitYear, FourDigitYear)) {
        match (self.0, self.1) {
            (YearExpr::TwoDigit(b), YearExpr::TwoDigit(e)) => (b, e).to_four_digit_range(),
            (YearExpr::TwoDigit(b), YearExpr::FourDigit(e)) => (b, e).to_four_digit_range(),
            (YearExpr::FourDigit(b), YearExpr::TwoDigit(e)) => (b, e).to_four_digit_range(),
            (YearExpr::FourDigit(b), YearExpr::FourDigit(e)) => (b, e).to_four_digit_range(),
        }
    }
}

impl ConfigurableRawYearRange for (YearExpr, YearExpr) {
    fn try_to_four_digit_range(&self, options: YearRangeNormalization) -> (r: Option<
        (FourDigitYear, FourDigitYear),
    >) {
        match (self.0, self.1) {
            (YearExpr::TwoDigit(b), YearExpr::TwoDigit(e)) => (b, e).try_to_four_digit_range(
                options,
            ),
            (YearExpr::TwoDigit(b), YearExpr::FourDigit(e)) => (b, e).try_to_four_digit_range(
                options,
            ),
            (YearExpr::FourDigit(b), YearExpr::TwoDigit(e)) => (b, e).try_to_four_digit_range(
                options,
            ),
            (YearExpr::FourDigit(b), YearExpr::FourDigit(e)) => (b, e).try_to_four_digit_range(
                options,
            ),
        }
    }
}

impl<T: RawYear, U: RawYear> TryIsProper for (T, U) {
    open spec fn pair(&self) -> (YearExpr, YearExpr) {
        (self.0.expr(), self.1.expr())
    }

    fn try_is_proper(&self) -> (r: Option<bool>) {
        let b = self.0.to_year_expr();
        let e = self.1.to_year_expr();
        match (b, e) {
            (YearExpr::TwoDigit(b), YearExpr::TwoDigit(e)) => Some((b, e).is_proper()),
            (YearExpr::TwoDigit(_), YearExpr::FourDigit(_)) => None,
            (YearExpr::FourDigit(_), YearExpr::TwoDigit(_)) => None,
            (YearExpr::FourDigit(b), YearExpr::FourDigit(e)) => Some((b, e).is_proper()),
        }
    }
}

} // verus!
