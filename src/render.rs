//! Writing years, year specifiers and copyright statements as text.

use vstd::prelude::*;
use crate::copyright::{Copyright, CopyrightView, DecomposedCopyright, DecomposedView, views_of};
use crate::text::{chars_of, join_texts, join_with, push_all, string_of, views_of_texts};
use crate::years::YearSpec;

verus! {

pub open spec fn digit_char(d: int) -> char {
    if d == 0 {
        '0'
    } else if d == 1 {
        '1'
    } else if d == 2 {
        '2'
    } else if d == 3 {
        '3'
    } else if d == 4 {
        '4'
    } else if d == 5 {
        '5'
    } else if d == 6 {
        '6'
    } else if d == 7 {
        '7'
    } else if d == 8 {
        '8'
    } else {
        '9'
    }
}

/// The decimal digits of `n`, without leading zeros.
pub open spec fn decimal(n: nat) -> Seq<char>
    decreases n,
{
    if n < 10 {
        seq![digit_char(n as int)]
    } else {
        decimal(n / 10) + seq![digit_char((n % 10) as int)]
    }
}

/// "2022" for a single year, "2018-2022" for a range (a range of one year
/// is written as that year).
pub open spec fn year_spec_text(y: YearSpec) -> Seq<char> {
    match y {
        YearSpec::SingleYear(v) => decimal(v.0 as nat),
        YearSpec::ClosedRange(r) => if r.first() == r.last() {
            decimal(r.first() as nat)
        } else {
            decimal(r.first() as nat) + seq!['-'] + decimal(r.last() as nat)
        },
    }
}

/// The year specifiers joined by ", ", then ", " and the holder.
pub open spec fn decomposed_text(d: DecomposedView) -> Seq<char> {
    join_with(d.years.map_values(|y: YearSpec| year_spec_text(y)), seq![',', ' ']) + seq![',', ' ']
        + d.holder
}

/// A statement as text: one line per decomposed entry, or the opaque text.
pub open spec fn copyright_text(c: CopyrightView) -> Seq<char> {
    match c {
        CopyrightView::Decomposable(d) => decomposed_text(d),
        CopyrightView::MultilineDecomposable(ds) => join_with(
            ds.map_values(|d: DecomposedView| decomposed_text(d)),
            seq!['\n'],
        ),
        CopyrightView::Complex(s) => s,
    }
}

fn digit_of_value(d: u16) -> (c: char)
    requires
        d < 10,
    ensures
        c == digit_char(d as int),
{
    if d == 0 {
        '0'
    } else if d == 1 {
        '1'
    } else if d == 2 {
        '2'
    } else if d == 3 {
        '3'
    } else if d == 4 {
        '4'
    } else if d == 5 {
        '5'
    } else if d == 6 {
        '6'
    } else if d == 7 {
        '7'
    } else if d == 8 {
        '8'
    } else {
        '9'
    }
}

fn push_decimal(out: &mut Vec<char>, n: u16)
    ensures
        final(out)@ == old(out)@ + decimal(n as nat),
    decreases n,
{
    if n >= 10 {
        push_decimal(out, n / 10);
    }
    out.push(digit_of_value(n % 10));
    assert(final(out)@ =~= old(out)@ + decimal(n as nat)) by {
        if n >= 10 {
            assert(decimal(n as nat) == decimal((n / 10) as nat) + seq![digit_char((n % 10) as int)]);
        }
    }
}

fn year_spec_chars(y: &YearSpec) -> (r: Vec<char>)
    ensures
        r@ == year_spec_text(*y),
{
    let mut out: Vec<char> = Vec::new();
    match y {
        YearSpec::SingleYear(v) => push_decimal(&mut out, v.0),
        YearSpec::ClosedRange(r) => {
            push_decimal(&mut out, r.begin().0);
            if !r.is_single_year() {
                out.push('-');
                push_decimal(&mut out, r.end().0);
            }
        },
    }
    assert(out@ =~= year_spec_text(*y));
    out
}

fn decomposed_chars(d: &DecomposedCopyright) -> (r: Vec<char>)
    ensures
        r@ == decomposed_text(d@),
{
    let ghost ys = d@.years.map_values(|y: YearSpec| year_spec_text(y));
    let mut parts: Vec<Vec<char>> = Vec::new();
    let mut i: usize = 0;
    while i < d.years.len()
        invariant
            i <= d.years@.len(),
            ys == d@.years.map_values(|y: YearSpec| year_spec_text(y)),
            views_of_texts(parts@) == ys.take(i as int),
        decreases d.years@.len() - i,
    {
        let t = year_spec_chars(&d.years[i]);
        let ghost before = parts@;
        parts.push(t);
        proof {
            assert(views_of_texts(parts@) =~= views_of_texts(before).push(t@));
            assert(ys.take(i + 1) =~= ys.take(i as int).push(ys[i as int]));
        }
        i += 1;
    }
    assert(ys.take(d.years@.len() as int) =~= ys);
    let sep: Vec<char> = vec![',', ' '];
    assert(sep@ =~= seq![',', ' ']);
    let mut out = join_texts(&parts, &sep);
    out.push(',');
    out.push(' ');
    let holder = chars_of(d.holder.as_str());
    push_all(&mut out, &holder);
    assert(out@ =~= decomposed_text(d@));
    out
}

impl DecomposedCopyright {
    /// The statement as text: "2020, 2022-2024, Holder".
    pub fn to_text(&self) -> (r: String)
        ensures
            r@ == decomposed_text(self@),
    {
        string_of(decomposed_chars(self).as_slice())
    }
}

impl Copyright {
    /// The statement as text: one line per decomposed entry, or the opaque text.
    pub fn to_text(&self) -> (r: String)
        ensures
            r@ == copyright_text(self@),
    {
        match self {
            Copyright::Decomposable(d) => d.to_text(),
            Copyright::MultilineDecomposable(ds) => {
                let ghost lines = views_of(ds@).map_values(|d: DecomposedView| decomposed_text(d));
                let mut parts: Vec<Vec<char>> = Vec::new();
                let mut i: usize = 0;
                while i < ds.len()
                    invariant
                        i <= ds@.len(),
                        lines == views_of(ds@).map_values(|d: DecomposedView| decomposed_text(d)),
                        views_of_texts(parts@) == lines.take(i as int),
                    decreases ds@.len() - i,
                {
                    let t = decomposed_chars(&ds[i]);
                    assert(lines[i as int] == decomposed_text(ds@[i as int]@));
                    let ghost before = parts@;
                    parts.push(t);
                    proof {
                        assert(views_of_texts(parts@) =~= views_of_texts(before).push(t@));
                        assert(lines.take(i + 1) =~= lines.take(i as int).push(lines[i as int]));
                    }
                    i += 1;
                }
                assert(lines.take(ds@.len() as int) =~= lines);
                let sep: Vec<char> = vec!['\n'];
                assert(sep@ =~= seq!['\n']);
                string_of(join_texts(&parts, &sep).as_slice())
            },
            Copyright::Complex(s) => s.clone(),
        }
    }
}

} // verus!
