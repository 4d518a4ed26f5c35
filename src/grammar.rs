//! The grammar of copyright statements, as spec functions over characters,
//! and the parsers proved to follow it.
//!
//! Every parser takes the whole text and a position, and returns what it
//! read with the position just after it, or nothing.

use vstd::prelude::*;
use crate::copyright::{DecomposedCopyright, DecomposedView, views_of};
use crate::raw_year::{
    lemma_normalized_ordered, normalized_range, ConfigurableRawYearRange, RawYear,
    YearExpr, YearRangeNormalization,
};
use crate::text::{trimmed, trimmed_string};
use crate::years::{Year, YearRange, YearSpec};

verus! {

broadcast use YearExpr::lemma_two_of, YearExpr::lemma_four_of, YearExpr::lemma_expr_parts,
    YearRange::lemma_spec_new, YearRange::lemma_bounds;

pub open spec fn is_digit(c: char) -> bool {
    '0' <= c && c <= '9'
}

pub open spec fn digit_value(c: char) -> int {
    (c as int) - ('0' as int)
}

/// A space or a tab.
pub open spec fn is_space(c: char) -> bool {
    c == ' ' || c == '\t'
}

/// A space, a tab, a carriage return or a line feed.
pub open spec fn is_multispace(c: char) -> bool {
    is_space(c) || c == '\r' || c == '\n'
}

/// The position after the spaces and tabs that start at `i`.
pub open spec fn skip_spaces(s: Seq<char>, i: int) -> int
    decreases s.len() - i,
{
    if 0 <= i < s.len() && is_space(s[i]) {
        skip_spaces(s, i + 1)
    } else {
        i
    }
}

/// The position after the white space (line breaks included) that starts at `i`.
pub open spec fn skip_multispaces(s: Seq<char>, i: int) -> int
    decreases s.len() - i,
{
    if 0 <= i < s.len() && is_multispace(s[i]) {
        skip_multispaces(s, i + 1)
    } else {
        i
    }
}

/// A four-digit year: "19" or "20", then two digits.
pub open spec fn four_digit_at(s: Seq<char>, i: int) -> Option<(YearExpr, int)> {
    if 0 <= i && i + 4 <= s.len() && ((s[i] == '1' && s[i + 1] == '9') || (s[i] == '2' && s[i + 1]
        == '0')) && is_digit(s[i + 2]) && is_digit(s[i + 3]) {
        Some(
            (
                YearExpr::four_of(
                    digit_value(s[i]) * 1000 + digit_value(s[i + 1]) * 100 + digit_value(s[i + 2])
                        * 10 + digit_value(s[i + 3]),
                ),
                i + 4,
            ),
        )
    } else {
        None
    }
}

/// A two-digit year: two digits.
pub open spec fn two_digit_at(s: Seq<char>, i: int) -> Option<(YearExpr, int)> {
    if 0 <= i && i + 2 <= s.len() && is_digit(s[i]) && is_digit(s[i + 1]) {
        Some((YearExpr::two_of(digit_value(s[i]) * 10 + digit_value(s[i + 1])), i + 2))
    } else {
        None
    }
}

/// A four-digit year if there is one, else a two-digit year.
pub open spec fn year_at(s: Seq<char>, i: int) -> Option<(YearExpr, int)> {
    if four_digit_at(s, i) is Some {
        four_digit_at(s, i)
    } else {
        two_digit_at(s, i)
    }
}

pub open spec fn width_at(s: Seq<char>, i: int, four: bool) -> Option<(YearExpr, int)> {
    if four {
        four_digit_at(s, i)
    } else {
        two_digit_at(s, i)
    }
}

/// A dash, with optional spaces on both sides.
pub open spec fn range_delim_at(s: Seq<char>, i: int) -> Option<int> {
    let a = skip_spaces(s, i);
    if 0 <= a < s.len() && s[a] == '-' {
        Some(skip_spaces(s, a + 1))
    } else {
        None
    }
}

/// Two years of the given widths around a range delimiter.
pub open spec fn pair_at(s: Seq<char>, i: int, four_b: bool, four_e: bool) -> Option<
    ((YearExpr, YearExpr), int),
> {
    match width_at(s, i, four_b) {
        None => None,
        Some((b, j)) => match range_delim_at(s, j) {
            None => None,
            Some(k) => match width_at(s, k, four_e) {
                None => None,
                Some((e, m)) => Some(((b, e), m)),
            },
        },
    }
}

/// A range of years; the widths are tried as four/four, four/two,
/// two/four, then two/two.
pub open spec fn year_range_at(s: Seq<char>, i: int) -> Option<((YearExpr, YearExpr), int)> {
    if pair_at(s, i, true, true) is Some {
        pair_at(s, i, true, true)
    } else if pair_at(s, i, true, false) is Some {
        pair_at(s, i, true, false)
    } else if pair_at(s, i, false, true) is Some {
        pair_at(s, i, false, true)
    } else {
        pair_at(s, i, false, false)
    }
}

/// After optional spaces, a range if there is one, else a single year (as a
/// pair of two equal years).
pub open spec fn raw_year_spec_at(s: Seq<char>, i: int) -> Option<((YearExpr, YearExpr), int)> {
    let j = skip_spaces(s, i);
    if year_range_at(s, j) is Some {
        year_range_at(s, j)
    } else {
        match year_at(s, j) {
            Some((y, k)) => Some(((y, y), k)),
            None => None,
        }
    }
}

/// Every four-digit year that the grammar reads lies in 1900..=2099.
pub open spec fn read_year_ok(y: YearExpr) -> bool {
    &&& y.within_width()
    &&& (y is FourDigit ==> 1900 <= y.value() <= 2099)
}

/// The spec view of an executable parse result.
pub open spec fn at<T>(r: Option<(T, usize)>) -> Option<(T, int)> {
    match r {
        Some((v, n)) => Some((v, n as int)),
        None => None,
    }
}

proof fn lemma_skip_spaces(s: Seq<char>, i: int)
    requires
        0 <= i <= s.len(),
    ensures
        i <= skip_spaces(s, i) <= s.len(),
    decreases s.len() - i,
{
    if i < s.len() && is_space(s[i]) {
        lemma_skip_spaces(s, i + 1);
    }
}

fn is_digit_char(c: char) -> (r: bool)
    ensures
        r == is_digit(c),
{
    '0' <= c && c <= '9'
}

fn digit_of(c: char) -> (r: u16)
    requires
        is_digit(c),
    ensures
        r == digit_value(c),
        r < 10,
{
    (c as u32 - '0' as u32) as u16
}

fn is_space_char(c: char) -> (r: bool)
    ensures
        r == is_space(c),
{
    c == ' ' || c == '\t'
}

fn is_multispace_char(c: char) -> (r: bool)
    ensures
        r == is_multispace(c),
{
    c == ' ' || c == '\t' || c == '\r' || c == '\n'
}

pub fn space0(s: &Vec<char>, i: usize) -> (r: usize)
    requires
        i <= s@.len(),
    ensures
        r == skip_spaces(s@, i as int),
        i <= r <= s@.len(),
{
    let mut j = i;
    while j < s.len() && is_space_char(s[j])
        invariant
            i <= j <= s@.len(),
            skip_spaces(s@, j as int) == skip_spaces(s@, i as int),
        decreases s@.len() - j,
    {
        j += 1;
    }
    j
}

pub fn multispace0(s: &Vec<char>, i: usize) -> (r: usize)
    requires
        i <= s@.len(),
    ensures
        r == skip_multispaces(s@, i as int),
        i <= r <= s@.len(),
{
    let mut j = i;
    while j < s.len() && is_multispace_char(s[j])
        invariant
            i <= j <= s@.len(),
            skip_multispaces(s@, j as int) == skip_multispaces(s@, i as int),
        decreases s@.len() - j,
    {
        j += 1;
    }
    j
}

/// A four-digit year at `i`.
pub fn four_digit_year(s: &Vec<char>, i: usize) -> (r: Option<(YearExpr, usize)>)
    requires
        i <= s@.len(),
    ensures
        at(r) == four_digit_at(s@, i as int),
        r matches Some((y, n)) ==> read_year_ok(y) && i < n <= s@.len(),
{
    if s.len() >= 4 && i <= s.len() - 4 && ((s[i] == '1' && s[i + 1] == '9') || (s[i] == '2' && s[i + 1] == '0'))
        && is_digit_char(s[i + 2]) && is_digit_char(s[i + 3]) {
        let v = digit_of(s[i]) * 1000 + digit_of(s[i + 1]) * 100 + digit_of(s[i + 2]) * 10
            + digit_of(s[i + 3]);
        Some((YearExpr::new_four_digit(v), i + 4))
    } else {
        None
    }
}

/// A two-digit year at `i`.
pub fn two_digit_year(s: &Vec<char>, i: usize) -> (r: Option<(YearExpr, usize)>)
    requires
        i <= s@.len(),
    ensures
        at(r) == two_digit_at(s@, i as int),
        r matches Some((y, n)) ==> read_year_ok(y) && i < n <= s@.len(),
{
    if s.len() >= 2 && i <= s.len() - 2 && is_digit_char(s[i]) && is_digit_char(s[i + 1]) {
        let v = digit_of(s[i]) * 10 + digit_of(s[i + 1]);
        Some((YearExpr::new_two_digit(v), i + 2))
    } else {
        None
    }
}

/// A year of either width at `i`, four digits preferred.
pub fn year(s: &Vec<char>, i: usize) -> (r: Option<(YearExpr, usize)>)
    requires
        i <= s@.len(),
    ensures
        at(r) == year_at(s@, i as int),
        r matches Some((y, n)) ==> read_year_ok(y) && i < n <= s@.len(),
{
    match four_digit_year(s, i) {
        Some(r) => Some(r),
        None => two_digit_year(s, i),
    }
}

fn year_of_width(s: &Vec<char>, i: usize, four: bool) -> (r: Option<(YearExpr, usize)>)
    requires
        i <= s@.len(),
    ensures
        at(r) == width_at(s@, i as int, four),
        r matches Some((y, n)) ==> read_year_ok(y) && i < n <= s@.len(),
{
    if four {
        four_digit_year(s, i)
    } else {
        two_digit_year(s, i)
    }
}

fn range_delim(s: &Vec<char>, i: usize) -> (r: Option<usize>)
    requires
        i <= s@.len(),
    ensures
        match r {
            Some(n) => range_delim_at(s@, i as int) == Some(n as int) && i < n <= s@.len(),
            None => range_delim_at(s@, i as int) is None,
        },
{
    let a = space0(s, i);
    if a < s.len() && s[a] == '-' {
        Some(space0(s, a + 1))
    } else {
        None
    }
}

fn year_pair(s: &Vec<char>, i: usize, four_b: bool, four_e: bool) -> (r: Option<
    ((YearExpr, YearExpr), usize),
>)
    requires
        i <= s@.len(),
    ensures
        at(r) == pair_at(s@, i as int, four_b, four_e),
        r matches Some((p, n)) ==> read_year_ok(p.0) && read_year_ok(p.1) && i < n <= s@.len(),
{
    match year_of_width(s, i, four_b) {
        None => None,
        Some((b, j)) => match range_delim(s, j) {
            None => None,
            Some(k) => match year_of_width(s, k, four_e) {
                None => None,
                Some((e, m)) => Some(((b, e), m)),
            },
        },
    }
}

/// A range of two years at `i`.
pub fn year_range(s: &Vec<char>, i: usize) -> (r: Option<((YearExpr, YearExpr), usize)>)
    requires
        i <= s@.len(),
    ensures
        at(r) == year_range_at(s@, i as int),
        r matches Some((p, n)) ==> read_year_ok(p.0) && read_year_ok(p.1) && i < n <= s@.len(),
{
    let r44 = year_pair(s, i, true, true);
    if r44.is_some() {
        return r44;
    }
    let r42 = year_pair(s, i, true, false);
    if r42.is_some() {
        return r42;
    }
    let r24 = year_pair(s, i, false, true);
    if r24.is_some() {
        return r24;
    }
    year_pair(s, i, false, false)
}

/// After optional spaces, a range of years or a single year at `i`.
pub fn raw_year_spec(s: &Vec<char>, i: usize) -> (r: Option<((YearExpr, YearExpr), usize)>)
    requires
        i <= s@.len(),
    ensures
        at(r) == raw_year_spec_at(s@, i as int),
        r matches Some((p, n)) ==> read_year_ok(p.0) && read_year_ok(p.1) && i < n <= s@.len(),
{
    let j = space0(s, i);
    let range = year_range(s, j);
    if range.is_some() {
        return range;
    }
    match year(s, j) {
        Some((y, k)) => Some(((y, y), k)),
        None => None,
    }
}

/// A year specifier under `o`: two equal years make a single year, with
/// the century guessed by default; two different years make a range, if
/// `o` allows the guesses that it takes.
pub open spec fn year_spec_at(s: Seq<char>, i: int, o: YearRangeNormalization) -> Option<
    (YearSpec, int),
> {
    match raw_year_spec_at(s, i) {
        None => None,
        Some((p, k)) => if p.0 == p.1 {
            Some((YearSpec::SingleYear(Year(p.0.guessed() as u16)), k))
        } else {
            match normalized_range(p.0, p.1, o) {
                Some(r) => Some((YearSpec::ClosedRange(YearRange::spec_new(r.0, r.1)), k)),
                None => None,
            }
        },
    }
}

/// The separator between year specifiers: a comma with optional spaces
/// around it, or else one or more spaces.
pub open spec fn list_sep_at(s: Seq<char>, i: int) -> Option<int> {
    let a = skip_spaces(s, i);
    if 0 <= a < s.len() && s[a] == ',' {
        Some(skip_spaces(s, a + 1))
    } else if 0 <= i < s.len() && is_space(s[i]) {
        Some(a)
    } else {
        None
    }
}

/// The year specifiers that follow, each after a separator; it stops before
/// the separator that no specifier follows. (The guard always holds: each
/// step reads at least one character.)
pub open spec fn more_year_specs(s: Seq<char>, i: int, o: YearRangeNormalization) -> (
    Seq<YearSpec>,
    int,
)
    decreases s.len() - i,
{
    match list_sep_at(s, i) {
        None => (seq![], i),
        Some(k) => match year_spec_at(s, k, o) {
            None => (seq![], i),
            Some((y, m)) => if i < m <= s.len() {
                let rest = more_year_specs(s, m, o);
                (seq![y] + rest.0, rest.1)
            } else {
                (seq![y], m)
            },
        },
    }
}

/// One or more year specifiers.
pub open spec fn year_specs_at(s: Seq<char>, i: int, o: YearRangeNormalization) -> Option<
    (Seq<YearSpec>, int),
> {
    match year_spec_at(s, i, o) {
        None => None,
        Some((y, j)) => Some((seq![y] + more_year_specs(s, j, o).0, more_year_specs(s, j, o).1)),
    }
}

/// `c` is `w`, or the upper-case form of the ASCII letter `w`.
pub open spec fn ci_eq(c: char, w: char) -> bool {
    c == w || ('a' <= w && w <= 'z' && (c as u32) == (w as u32) - 32)
}

/// The word `w` stands at `i`, ignoring ASCII case.
pub open spec fn word_at(s: Seq<char>, i: int, w: Seq<char>) -> bool {
    &&& 0 <= i
    &&& i + w.len() <= s.len()
    &&& forall|k: int| 0 <= k < w.len() ==> ci_eq(#[trigger] s[i + k], w[k])
}

pub open spec fn kw_copyright_c() -> Seq<char> {
    seq!['c', 'o', 'p', 'y', 'r', 'i', 'g', 'h', 't', ' ', '(', 'c', ')']
}

pub open spec fn kw_copyright() -> Seq<char> {
    seq!['c', 'o', 'p', 'y', 'r', 'i', 'g', 'h', 't']
}

pub open spec fn kw_copr() -> Seq<char> {
    seq!['c', 'o', 'p', 'r']
}

/// The position after the optional prefix "copyright (c)", "copyright" or
/// "copr" (any case, white space around it); `i` where there is none.
pub open spec fn prefix_end(s: Seq<char>, i: int) -> int {
    let a = skip_multispaces(s, i);
    if word_at(s, a, kw_copyright_c()) {
        skip_multispaces(s, a + 13)
    } else if word_at(s, a, kw_copyright()) {
        skip_multispaces(s, a + 9)
    } else if word_at(s, a, kw_copr()) {
        skip_multispaces(s, a + 4)
    } else {
        i
    }
}

/// Where the line that goes on at `i` ends: before "\n" or "\r\n", or at
/// the end of the text; nothing where a "\r" stands without a "\n".
pub open spec fn line_end_at(s: Seq<char>, i: int) -> Option<int>
    decreases s.len() - i,
{
    if !(0 <= i < s.len()) {
        Some(i)
    } else if s[i] == '\n' {
        Some(i)
    } else if s[i] == '\r' {
        if i + 1 < s.len() && s[i + 1] == '\n' {
            Some(i)
        } else {
            None
        }
    } else {
        line_end_at(s, i + 1)
    }
}

/// One line of a statement: prefix, year specifiers, a comma with optional
/// spaces around it, then the rest of the line, trimmed, as the holder.
pub open spec fn line_at(s: Seq<char>, i: int, o: YearRangeNormalization) -> Option<
    (DecomposedView, int),
> {
    let p = prefix_end(s, i);
    match year_specs_at(s, p, o) {
        None => None,
        Some((ys, j)) => {
            let a = skip_spaces(s, j);
            if 0 <= a < s.len() && s[a] == ',' {
                let h = skip_spaces(s, a + 1);
                match line_end_at(s, h) {
                    None => None,
                    Some(e) => Some(
                        (DecomposedView { years: ys, holder: trimmed(s.subrange(h, e)) }, e),
                    ),
                }
            } else {
                None
            }
        },
    }
}

/// The lines that follow, each with the white space after it. (The guard
/// always holds: each line reads at least one character.)
pub open spec fn lines_from(s: Seq<char>, i: int, o: YearRangeNormalization) -> (
    Seq<DecomposedView>,
    int,
)
    decreases s.len() - i,
{
    match line_at(s, i, o) {
        None => (seq![], i),
        Some((d, j)) => {
            let k = skip_multispaces(s, j);
            if i < k <= s.len() {
                let rest = lines_from(s, k, o);
                (seq![d] + rest.0, rest.1)
            } else {
                (seq![d], k)
            }
        },
    }
}

/// The whole text as one or more lines, or nothing if it does not fully match.
pub open spec fn parse_lines(s: Seq<char>, o: YearRangeNormalization) -> Option<
    Seq<DecomposedView>,
> {
    let r = lines_from(s, 0, o);
    if r.0.len() > 0 && r.1 == s.len() {
        Some(r.0)
    } else {
        None
    }
}

proof fn lemma_width_ok(s: Seq<char>, i: int, four: bool)
    ensures
        width_at(s, i, four) matches Some((y, _)) ==> read_year_ok(y),
{
    if four_digit_at(s, i) is Some {
        let v = digit_value(s[i]) * 1000 + digit_value(s[i + 1]) * 100 + digit_value(s[i + 2]) * 10
            + digit_value(s[i + 3]);
        assert(1900 <= v <= 2099);
    }
    if two_digit_at(s, i) is Some {
        let v = digit_value(s[i]) * 10 + digit_value(s[i + 1]);
        assert(0 <= v < 100);
    }
}

spec fn pair_ok(r: Option<((YearExpr, YearExpr), int)>) -> bool {
    match r {
        Some((p, _)) => read_year_ok(p.0) && read_year_ok(p.1),
        None => true,
    }
}

proof fn lemma_raw_year_spec_ok(s: Seq<char>, i: int)
    ensures
        pair_ok(raw_year_spec_at(s, i)),
{
    let j = skip_spaces(s, i);
    lemma_width_ok(s, j, true);
    lemma_width_ok(s, j, false);
    assert forall|a: bool, b: bool| pair_ok(#[trigger] pair_at(s, j, a, b)) by {
        lemma_width_ok(s, j, a);
        if let Some((b0, k0)) = width_at(s, j, a) {
            if let Some(k1) = range_delim_at(s, k0) {
                lemma_width_ok(s, k1, b);
            }
        }
    }
    assert(pair_ok(year_range_at(s, j)));
}

/// Every year specifier that the grammar reads is in order.
pub proof fn lemma_year_spec_wf(s: Seq<char>, i: int, o: YearRangeNormalization)
    ensures
        year_spec_at(s, i, o) matches Some((y, _)) ==> y.wf(),
{
    lemma_raw_year_spec_ok(s, i);
    if let Some((p, k)) = raw_year_spec_at(s, i) {
        if p.0 != p.1 && normalized_range(p.0, p.1, o) is Some {
            lemma_normalized_ordered(p.0, p.1, o);
        }
    }
}

proof fn lemma_more_year_specs_wf(s: Seq<char>, i: int, o: YearRangeNormalization)
    ensures
        forall|k: int|
            0 <= k < more_year_specs(s, i, o).0.len() ==> (#[trigger] more_year_specs(s, i, o).0[k]).wf(),
    decreases s.len() - i,
{
    if let Some(k) = list_sep_at(s, i) {
        lemma_year_spec_wf(s, k, o);
        if let Some((y, m)) = year_spec_at(s, k, o) {
            if i < m <= s.len() {
                lemma_more_year_specs_wf(s, m, o);
                let rest = more_year_specs(s, m, o);
                assert forall|k: int| 0 <= k < (seq![y] + rest.0).len() implies (#[trigger] (seq![y]
                    + rest.0)[k]).wf() by {
                    if k > 0 {
                        assert((seq![y] + rest.0)[k] == rest.0[k - 1]);
                    }
                }
            }
        }
    }
}

proof fn lemma_line_wf(s: Seq<char>, i: int, o: YearRangeNormalization)
    ensures
        line_at(s, i, o) matches Some((d, _)) ==> forall|k: int|
            0 <= k < d.years.len() ==> (#[trigger] d.years[k]).wf(),
{
    let p = prefix_end(s, i);
    lemma_year_spec_wf(s, p, o);
    if let Some((y, j)) = year_spec_at(s, p, o) {
        lemma_more_year_specs_wf(s, j, o);
        let ys = seq![y] + more_year_specs(s, j, o).0;
        assert forall|k: int| 0 <= k < ys.len() implies (#[trigger] ys[k]).wf() by {
            if k > 0 {
                assert(ys[k] == more_year_specs(s, j, o).0[k - 1]);
            }
        }
    }
}

proof fn lemma_lines_from_wf(s: Seq<char>, i: int, o: YearRangeNormalization)
    ensures
        forall|k: int, m: int|
            0 <= k < lines_from(s, i, o).0.len() && 0 <= m < lines_from(s, i, o).0[k].years.len()
                ==> (#[trigger] lines_from(s, i, o).0[k].years[m]).wf(),
    decreases s.len() - i,
{
    lemma_line_wf(s, i, o);
    if let Some((d, j)) = line_at(s, i, o) {
        let k0 = skip_multispaces(s, j);
        if i < k0 <= s.len() {
            lemma_lines_from_wf(s, k0, o);
            let rest = lines_from(s, k0, o);
            let all = seq![d] + rest.0;
            assert forall|k: int, m: int| 0 <= k < all.len() && 0 <= m < all[k].years.len() implies (
            #[trigger] all[k].years[m]).wf() by {
                if k > 0 {
                    assert(all[k] == rest.0[k - 1]);
                }
            }
        }
    }
}

/// Every line that the grammar reads has its year specifiers in order.
pub proof fn lemma_parse_lines_wf(s: Seq<char>, o: YearRangeNormalization)
    ensures
        parse_lines(s, o) matches Some(ds) ==> forall|k: int, m: int|
            0 <= k < ds.len() && 0 <= m < ds[k].years.len() ==> (#[trigger] ds[k].years[m]).wf(),
{
    lemma_lines_from_wf(s, 0, o);
}

/// A year specifier at `i` under `options`.
pub fn year_spec(s: &Vec<char>, i: usize, options: YearRangeNormalization) -> (r: Option<
    (YearSpec, usize),
>)
    requires
        i <= s@.len(),
    ensures
        at(r) == year_spec_at(s@, i as int, options),
        r matches Some((y, n)) ==> y.wf() && i < n <= s@.len(),
{
    match raw_year_spec(s, i) {
        None => None,
        Some((p, k)) => {
            let (b, e) = p;
            if b == e {
                Some((YearSpec::SingleYear(Year(b.to_four_digit().into_inner())), k))
            } else {
                match (b, e).try_to_four_digit_range(options) {
                    Some((x, y)) => {
                        proof {
                            lemma_normalized_ordered(b, e, options);
                        }
                        let range = YearRange::new(Year(x.into_inner()), Year(y.into_inner()));
                        Some((YearSpec::ClosedRange(range), k))
                    },
                    None => None,
                }
            }
        },
    }
}

fn list_sep(s: &Vec<char>, i: usize) -> (r: Option<usize>)
    requires
        i <= s@.len(),
    ensures
        match r {
            Some(n) => list_sep_at(s@, i as int) == Some(n as int) && i < n <= s@.len(),
            None => list_sep_at(s@, i as int) is None,
        },
{
    let a = space0(s, i);
    if a < s.len() && s[a] == ',' {
        Some(space0(s, a + 1))
    } else if i < s.len() && is_space_char(s[i]) {
        proof {
            lemma_skip_spaces(s@, i + 1);
        }
        Some(a)
    } else {
        None
    }
}

/// One or more year specifiers at `i` under `options`.
pub fn year_spec_vec(s: &Vec<char>, i: usize, options: YearRangeNormalization) -> (r: Option<
    (Vec<YearSpec>, usize),
>)
    requires
        i <= s@.len(),
    ensures
        match r {
            Some((v, n)) => year_specs_at(s@, i as int, options) == Some((v@, n as int)) && i < n
                <= s@.len() && forall|k: int| 0 <= k < v@.len() ==> (#[trigger] v@[k]).wf(),
            None => year_specs_at(s@, i as int, options) is None,
        },
{
    let (first, j) = match year_spec(s, i, options) {
        None => {
            return None;
        },
        Some(found) => found,
    };
    let mut out: Vec<YearSpec> = Vec::new();
    out.push(first);
    let mut pos = j;
    loop
        invariant
            i < pos <= s@.len(),
            forall|k: int| 0 <= k < out@.len() ==> (#[trigger] out@[k]).wf(),
            seq![first] + more_year_specs(s@, j as int, options).0 == out@ + more_year_specs(
                s@,
                pos as int,
                options,
            ).0,
            more_year_specs(s@, j as int, options).1 == more_year_specs(s@, pos as int, options).1,
        ensures
            more_year_specs(s@, pos as int, options).0 == Seq::<YearSpec>::empty(),
            more_year_specs(s@, pos as int, options).1 == pos,
        decreases s@.len() - pos,
    {
        let k = match list_sep(s, pos) {
            None => {
                break ;
            },
            Some(k) => k,
        };
        match year_spec(s, k, options) {
            None => {
                break ;
            },
            Some((y, m)) => {
                let ghost rest = more_year_specs(s@, m as int, options);
                assert(more_year_specs(s@, pos as int, options).0 == seq![y] + rest.0);
                assert(out@ + (seq![y] + rest.0) == out@.push(y) + rest.0);
                out.push(y);
                pos = m;
            },
        }
    }
    assert(out@ + seq![] == out@);
    Some((out, pos))
}

fn word_matches(s: &Vec<char>, i: usize, w: &Vec<char>) -> (r: bool)
    requires
        i <= s@.len(),
        forall|k: int| 0 <= k < w@.len() ==> 'a' <= #[trigger] w@[k] && w@[k] <= 'z' || w@[k] == ' '
            || w@[k] == '(' || w@[k] == ')',
    ensures
        r == word_at(s@, i as int, w@),
{
    if w.len() > s.len() - i {
        return false;
    }
    let mut k: usize = 0;
    while k < w.len()
        invariant
            i + w@.len() <= s@.len() <= usize::MAX,
            k <= w@.len(),
            forall|m: int| 0 <= m < k ==> ci_eq(#[trigger] s@[i + m], w@[m]),
            forall|m: int| 0 <= m < w@.len() ==> 'a' <= #[trigger] w@[m] && w@[m] <= 'z' || w@[m]
                == ' ' || w@[m] == '(' || w@[m] == ')',
        decreases w@.len() - k,
    {
        let c = s[i + k];
        let l = w[k];
        let same = c == l || ('a' <= l && l <= 'z' && (c as u32) == (l as u32) - 32);
        if !same {
            return false;
        }
        k += 1;
    }
    true
}

/// The position after the optional prefix of a statement line.
pub fn copyright_prefix(s: &Vec<char>, i: usize) -> (r: usize)
    requires
        i <= s@.len(),
    ensures
        r == prefix_end(s@, i as int),
        i <= r <= s@.len(),
{
    let a = multispace0(s, i);
    let n = s.len();
    let kw_long: Vec<char> = vec!['c', 'o', 'p', 'y', 'r', 'i', 'g', 'h', 't', ' ', '(', 'c', ')'];
    let kw_word: Vec<char> = vec!['c', 'o', 'p', 'y', 'r', 'i', 'g', 'h', 't'];
    let kw_short: Vec<char> = vec!['c', 'o', 'p', 'r'];
    assert(kw_long@ =~= kw_copyright_c());
    assert(kw_word@ =~= kw_copyright());
    assert(kw_short@ =~= kw_copr());
    assert(kw_long@.len() == 13 && kw_word@.len() == 9 && kw_short@.len() == 4);
    if word_matches(s, a, &kw_long) {
        assert(a + kw_long@.len() <= s@.len());
        multispace0(s, a + 13)
    } else if word_matches(s, a, &kw_word) {
        assert(a + kw_word@.len() <= s@.len());
        multispace0(s, a + 9)
    } else if word_matches(s, a, &kw_short) {
        assert(a + kw_short@.len() <= s@.len());
        multispace0(s, a + 4)
    } else {
        i
    }
}

fn line_end(s: &Vec<char>, i: usize) -> (r: Option<usize>)
    requires
        i <= s@.len(),
    ensures
        match r {
            Some(n) => line_end_at(s@, i as int) == Some(n as int) && i <= n <= s@.len(),
            None => line_end_at(s@, i as int) is None,
        },
{
    let mut j = i;
    while j < s.len() && s[j] != '\n' && s[j] != '\r'
        invariant
            i <= j <= s@.len(),
            line_end_at(s@, j as int) == line_end_at(s@, i as int),
        decreases s@.len() - j,
    {
        j += 1;
    }
    if j < s.len() && s[j] == '\r' {
        if j + 1 < s.len() && s[j + 1] == '\n' {
            Some(j)
        } else {
            None
        }
    } else {
        Some(j)
    }
}

/// One line of a statement at `i` under `options`.
pub fn copyright_line(s: &Vec<char>, i: usize, options: YearRangeNormalization) -> (r: Option<
    (DecomposedCopyright, usize),
>)
    requires
        i <= s@.len(),
    ensures
        match r {
            Some((d, n)) => line_at(s@, i as int, options) == Some((d@, n as int)) && i < n
                <= s@.len() && forall|k: int| 0 <= k < d@.years.len() ==> (
            #[trigger] d@.years[k]).wf(),
            None => line_at(s@, i as int, options) is None,
        },
{
    let p = copyright_prefix(s, i);
    let (years, j) = match year_spec_vec(s, p, options) {
        None => {
            return None;
        },
        Some(found) => found,
    };
    let a = space0(s, j);
    if a < s.len() && s[a] == ',' {
        let h = space0(s, a + 1);
        match line_end(s, h) {
            None => None,
            Some(e) => {
                let holder = trimmed_string(s, h, e);
                Some((DecomposedCopyright { years, holder }, e))
            },
        }
    } else {
        None
    }
}

/// The whole text as one or more statement lines, if it fully matches.
pub fn copyright_lines(s: &Vec<char>, options: YearRangeNormalization) -> (r: Option<
    Vec<DecomposedCopyright>,
>)
    ensures
        match r {
            Some(v) => parse_lines(s@, options) == Some(views_of(v@)) && v@.len() > 0 && forall|
                k: int,
                m: int,
            | 0 <= k < v@.len() && 0 <= m < v@[k]@.years.len() ==> (#[trigger] v@[k]@.years[m]).wf(),
            None => parse_lines(s@, options) is None,
        },
{
    let mut out: Vec<DecomposedCopyright> = Vec::new();
    let mut pos: usize = 0;
    loop
        invariant
            pos <= s@.len(),
            out@.len() == 0 ==> pos == 0,
            lines_from(s@, 0, options).0 == views_of(out@) + lines_from(s@, pos as int, options).0,
            lines_from(s@, 0, options).1 == lines_from(s@, pos as int, options).1,
            forall|k: int, m: int|
                0 <= k < out@.len() && 0 <= m < out@[k]@.years.len() ==> (
                #[trigger] out@[k]@.years[m]).wf(),
        ensures
            lines_from(s@, pos as int, options).0 == Seq::<DecomposedView>::empty(),
            lines_from(s@, pos as int, options).1 == pos,
        decreases s@.len() - pos,
    {
        match copyright_line(s, pos, options) {
            None => {
                break ;
            },
            Some((d, j)) => {
                let k = multispace0(s, j);
                let ghost rest = lines_from(s@, k as int, options);
                assert(lines_from(s@, pos as int, options).0 == seq![d@] + rest.0);
                assert(views_of(out@.push(d)) =~= views_of(out@).push(d@));
                assert(views_of(out@) + (seq![d@] + rest.0) == views_of(out@).push(d@) + rest.0);
                out.push(d);
                pos = k;
            },
        }
    }
    assert(views_of(out@) + seq![] == views_of(out@));
    if out.len() > 0 && pos == s.len() {
        Some(out)
    } else {
        None
    }
}

} // verus!
