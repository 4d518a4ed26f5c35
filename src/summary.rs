//! Restating a copyright statement compactly: one line per holder, with all
//! of the holder's years merged by the coalescer.

use vstd::prelude::*;
use crate::copyright::{lines_of, views_of, Copyright, CopyrightView, DecomposedCopyright, DecomposedView};
use crate::text::{chars_of, sort_texts, sorted_texts, string_of, views_of_texts};
use crate::years::{coalesce_seq, coalesced, sort_ranges, Year, YearRange, YearRangeCollection, YearSpec};

verus! {

/// A sorted sequence of texts with each run of equal texts kept once.
pub open spec fn dedup_sorted(s: Seq<Seq<char>>) -> Seq<Seq<char>>
    decreases s.len(),
{
    if s.len() == 0 {
        s
    } else {
        let p = dedup_sorted(s.drop_last());
        if p.len() > 0 && p.last() == s.last() {
            p
        } else {
            p.push(s.last())
        }
    }
}

/// The distinct holders of the lines, in ascending order.
pub open spec fn holders_of(ls: Seq<DecomposedView>) -> Seq<Seq<char>> {
    dedup_sorted(sorted_texts(ls.map_values(|d: DecomposedView| d.holder)))
}

/// All year specifiers of the lines whose holder is `h`, in order.
pub open spec fn years_of_holder(ls: Seq<DecomposedView>, h: Seq<char>) -> Seq<YearSpec>
    decreases ls.len(),
{
    if ls.len() == 0 {
        seq![]
    } else {
        years_of_holder(ls.drop_last(), h) + if ls.last().holder == h {
            ls.last().years
        } else {
            seq![]
        }
    }
}

/// A range as a specifier: a single year where it holds one year.
pub open spec fn as_year_spec(r: YearRange) -> YearSpec {
    if r.first() == r.last() {
        YearSpec::SingleYear(Year(r.first() as u16))
    } else {
        YearSpec::ClosedRange(r)
    }
}

/// The specifiers, as ranges, sorted and coalesced, back as specifiers.
pub open spec fn summary_years(ys: Seq<YearSpec>) -> Seq<YearSpec> {
    coalesced(ys.map_values(|y: YearSpec| y.as_range())).map_values(|r: YearRange| as_year_spec(r))
}

/// One line per holder, in ascending order of holders, with all of the
/// holder's years coalesced.
pub open spec fn summarized_lines(ls: Seq<DecomposedView>) -> Seq<DecomposedView> {
    holders_of(ls).map_values(
        |h: Seq<char>| DecomposedView { years: summary_years(years_of_holder(ls, h)), holder: h },
    )
}

/// The statement restated: opaque text stays as it is; otherwise one line
/// per holder, a single statement where there is one holder.
pub open spec fn resummarized(c: CopyrightView) -> CopyrightView {
    match c {
        CopyrightView::Complex(_) => c,
        _ => {
            let ds = summarized_lines(lines_of(c));
            if ds.len() == 1 {
                CopyrightView::Decomposable(ds[0])
            } else {
                CopyrightView::MultilineDecomposable(ds)
            }
        },
    }
}

fn same_chars(a: &Vec<char>, b: &Vec<char>) -> (r: bool)
    ensures
        r == (a@ == b@),
{
    if a.len() != b.len() {
        return false;
    }
    let mut i: usize = 0;
    while i < a.len()
        invariant
            a@.len() == b@.len(),
            i <= a@.len(),
            forall|k: int| 0 <= k < i ==> a@[k] == b@[k],
        decreases a@.len() - i,
    {
        if a[i] != b[i] {
            return false;
        }
        i += 1;
    }
    assert(a@ =~= b@);
    true
}

/// The distinct holders of the lines, in ascending order.
fn distinct_holders(lines: &Vec<DecomposedCopyright>) -> (r: Vec<Vec<char>>)
    ensures
        views_of_texts(r@) == holders_of(views_of(lines@)),
{
    let ghost ls = views_of(lines@);
    let ghost hs = ls.map_values(|d: DecomposedView| d.holder);
    let mut all: Vec<Vec<char>> = Vec::new();
    let mut i: usize = 0;
    while i < lines.len()
        invariant
            i <= lines@.len(),
            ls == views_of(lines@),
            hs == ls.map_values(|d: DecomposedView| d.holder),
            views_of_texts(all@) == hs.take(i as int),
        decreases lines@.len() - i,
    {
        let h = chars_of(lines[i].holder.as_str());
        let ghost before = all@;
        all.push(h);
        proof {
            assert(hs[i as int] == lines@[i as int].holder@);
            assert(views_of_texts(all@) =~= views_of_texts(before).push(h@));
            assert(hs.take(i + 1) =~= hs.take(i as int).push(hs[i as int]));
        }
        i += 1;
    }
    assert(hs.take(lines@.len() as int) =~= hs);
    let sorted = sort_texts(all);
    let ghost st = views_of_texts(sorted@);
    let mut out: Vec<Vec<char>> = Vec::new();
    let mut j: usize = 0;
    assert(st.take(0) =~= Seq::<Seq<char>>::empty());
    while j < sorted.len()
        invariant
            j <= sorted@.len(),
            st == views_of_texts(sorted@),
            views_of_texts(out@) == dedup_sorted(st.take(j as int)),
        decreases sorted@.len() - j,
    {
        proof {
            assert(st.take(j + 1).drop_last() =~= st.take(j as int));
            assert(st.take(j + 1).last() == sorted@[j as int]@);
        }
        let n = out.len();
        let keep = n == 0 || !same_chars(&out[n - 1], &sorted[j]);
        if keep {
            let x = crate::text::slice_of(&sorted[j], 0, sorted[j].len());
            assert(x@ =~= sorted@[j as int]@);
            let ghost before = out@;
            out.push(x);
            assert(views_of_texts(out@) =~= views_of_texts(before).push(x@));
        }
        j += 1;
    }
    assert(st.take(sorted@.len() as int) =~= st);
    out
}

/// The specifier for a coalesced range.
fn year_spec_of(r: YearRange) -> (y: YearSpec)
    ensures
        y == as_year_spec(r),
{
    if r.is_single_year() {
        YearSpec::SingleYear(r.begin())
    } else {
        YearSpec::ClosedRange(r)
    }
}

/// All years of `holder` in the lines, sorted and coalesced.
fn holder_years(lines: &Vec<DecomposedCopyright>, holder: &Vec<char>) -> (r: Vec<YearSpec>)
    ensures
        r@ == summary_years(years_of_holder(views_of(lines@), holder@)),
{
    let ghost ls = views_of(lines@);
    let mut collection = YearRangeCollection::new();
    let mut i: usize = 0;
    assert(ls.take(0) =~= Seq::<DecomposedView>::empty());
    assert(Seq::<YearSpec>::empty().map_values(|y: YearSpec| y.as_range()) =~= Seq::<YearRange>::empty());
    while i < lines.len()
        invariant
            i <= lines@.len(),
            ls == views_of(lines@),
            collection.wf(),
            collection@ == sort_ranges(years_of_holder(ls.take(i as int), holder@).map_values(
                |y: YearSpec| y.as_range(),
            )),
        decreases lines@.len() - i,
    {
        let ghost done = years_of_holder(ls.take(i as int), holder@);
        proof {
            assert(ls.take(i + 1).drop_last() =~= ls.take(i as int));
            assert(ls.take(i + 1).last() == lines@[i as int]@);
        }
        let h = chars_of(lines[i].holder.as_str());
        if same_chars(&h, holder) {
            let ys = &lines[i].years;
            let mut j: usize = 0;
            assert(ys@.take(0) =~= Seq::<YearSpec>::empty());
            assert(done + ys@.take(0) =~= done);
            while j < ys.len()
                invariant
                    j <= ys@.len(),
                    collection.wf(),
                    collection@ == sort_ranges((done + ys@.take(j as int)).map_values(
                        |y: YearSpec| y.as_range(),
                    )),
                decreases ys@.len() - j,
            {
                let ghost prev = (done + ys@.take(j as int)).map_values(|y: YearSpec| y.as_range());
                collection.accumulate(ys[j]);
                proof {
                    let next = (done + ys@.take(j + 1)).map_values(|y: YearSpec| y.as_range());
                    assert(next =~= prev.push(ys@[j as int].as_range()));
                    assert(next.drop_last() =~= prev);
                }
                j += 1;
            }
            assert(ys@.take(ys@.len() as int) =~= ys@);
        } else {
            assert(done + Seq::<YearSpec>::empty() =~= done);
        }
        i += 1;
    }
    assert(ls.take(lines@.len() as int) =~= ls);
    let ranges = collection.into_coalesced_vec();
    let ghost cr = coalesce_seq(collection@);
    let mut out: Vec<YearSpec> = Vec::new();
    let mut k: usize = 0;
    while k < ranges.len()
        invariant
            k <= ranges@.len(),
            out@ == ranges@.take(k as int).map_values(|r: YearRange| as_year_spec(r)),
        decreases ranges@.len() - k,
    {
        let y = year_spec_of(ranges[k]);
        out.push(y);
        assert(out@ =~= ranges@.take(k + 1).map_values(|r: YearRange| as_year_spec(r)));
        k += 1;
    }
    assert(ranges@.take(ranges@.len() as int) =~= ranges@);
    out
}

/// One line per holder, in ascending order of holders, with all of the
/// holder's years coalesced.
fn summarize_lines(lines: &Vec<DecomposedCopyright>) -> (r: Vec<DecomposedCopyright>)
    ensures
        views_of(r@) == summarized_lines(views_of(lines@)),
{
    let ghost ls = views_of(lines@);
    let holders = distinct_holders(lines);
    let ghost hs = views_of_texts(holders@);
    let mut out: Vec<DecomposedCopyright> = Vec::new();
    let mut i: usize = 0;
    while i < holders.len()
        invariant
            i <= holders@.len(),
            ls == views_of(lines@),
            hs == views_of_texts(holders@),
            hs == holders_of(ls),
            views_of(out@) == summarized_lines(ls).take(i as int),
        decreases holders@.len() - i,
    {
        let years = holder_years(lines, &holders[i]);
        let d = DecomposedCopyright { years, holder: string_of(holders[i].as_slice()) };
        let ghost before = out@;
        out.push(d);
        proof {
            assert(hs[i as int] == holders@[i as int]@);
            assert(views_of(out@) =~= views_of(before).push(d@));
            assert(summarized_lines(ls).take(i + 1) =~= summarized_lines(ls).take(i as int).push(
                summarized_lines(ls)[i as int],
            ));
        }
        i += 1;
    }
    assert(summarized_lines(ls).take(holders@.len() as int) =~= summarized_lines(ls));
    out
}

impl Copyright {
    /// The statement restated with one line per holder and all of each
    /// holder's years coalesced; opaque text is left as it is.
    pub fn resummarize(&self) -> (r: Copyright)
        ensures
            r@ == resummarized(self@),
    {
        let mut ds = match self {
            Copyright::Complex(s) => {
                return Copyright::Complex(s.clone());
            },
            Copyright::Decomposable(d) => {
                let mut one: Vec<DecomposedCopyright> = Vec::new();
                one.push(d.duplicate());
                assert(views_of(one@) =~= lines_of(self@));
                summarize_lines(&one)
            },
            Copyright::MultilineDecomposable(lines) => summarize_lines(lines),
        };
        if ds.len() == 1 {
            let d = ds.pop().unwrap();
            assert(views_of(ds@.push(d))[0] == d@);
            Copyright::Decomposable(d)
        } else {
            Copyright::MultilineDecomposable(ds)
        }
    }
}

} // verus!
