//! Copyright statements: decomposed into years and holder where the grammar
//! matches, kept as opaque text where it does not, and the containment
//! relation between them.

use vstd::prelude::*;
use crate::grammar::{copyright_lines, lemma_parse_lines_wf, parse_lines};
use crate::raw_year::YearRangeNormalization;
use crate::text::{chars_of, same_text, trim, trimmed};
use crate::years::YearSpec;

verus! {

/// One statement: its year specifiers and its holder.
#[derive(Debug, Clone, PartialEq, Eq, Hash)]
pub struct DecomposedCopyright {
    pub years: Vec<YearSpec>,
    pub holder: String,
}

/// What a decomposed statement holds.
pub struct DecomposedView {
    pub years: Seq<YearSpec>,
    pub holder: Seq<char>,
}

impl View for DecomposedCopyright {
    type V = DecomposedView;

    open spec fn view(&self) -> DecomposedView {
        DecomposedView { years: self.years@, holder: self.holder@ }
    }
}

/// A copyright statement.
#[derive(Debug, Clone, PartialEq, Eq, Hash)]
pub enum Copyright {
    /// One line that the grammar decomposes.
    Decomposable(DecomposedCopyright),
    /// Several lines that the grammar decomposes, one entry per line, in order.
    MultilineDecomposable(Vec<DecomposedCopyright>),
    /// Text that the grammar does not decompose, trimmed.
    Complex(String),
}

/// What a copyright statement holds.
pub enum CopyrightView {
    Decomposable(DecomposedView),
    MultilineDecomposable(Seq<DecomposedView>),
    Complex(Seq<char>),
}

pub open spec fn views_of(v: Seq<DecomposedCopyright>) -> Seq<DecomposedView> {
    v.map_values(|d: DecomposedCopyright| d@)
}

impl View for Copyright {
    type V = CopyrightView;

    open spec fn view(&self) -> CopyrightView {
        match self {
            Copyright::Decomposable(d) => CopyrightView::Decomposable(d@),
            Copyright::MultilineDecomposable(v) => CopyrightView::MultilineDecomposable(
                views_of(v@),
            ),
            Copyright::Complex(s) => CopyrightView::Complex(s@),
        }
    }
}

pub(crate) fn copy_years(years: &[YearSpec]) -> (r: Vec<YearSpec>)
    ensures
        r@ == years@,
{
    let mut out: Vec<YearSpec> = Vec::new();
    let mut i: usize = 0;
    while i < years.len()
        invariant
            i <= years@.len(),
            out@ == years@.take(i as int),
        decreases years@.len() - i,
    {
        out.push(years[i]);
        i += 1;
        assert(out@ =~= years@.take(i as int));
    }
    assert(years@.take(years@.len() as int) =~= years@);
    out
}

impl DecomposedCopyright {
    /// A statement with the given years and the holder trimmed.
    pub fn new(years: &[YearSpec], holder: &str) -> (r: DecomposedCopyright)
        ensures
            r@.years == years@,
            r@.holder == trimmed(holder@),
    {
        DecomposedCopyright { years: copy_years(years), holder: trim(holder).to_owned() }
    }

    /// Do the two statements hold the same years and holder?
    pub fn same_as(&self, other: &DecomposedCopyright) -> (r: bool)
        ensures
            r == (self@ == other@),
    {
        same_years(&self.years, &other.years) && same_text(self.holder.as_str(), other.holder.as_str())
    }

    /// A copy of the statement.
    pub fn duplicate(&self) -> (r: DecomposedCopyright)
        ensures
            r@ == self@,
    {
        DecomposedCopyright { years: copy_years(self.years.as_slice()), holder: self.holder.clone() }
    }

    /// A statement with one year specifier and the holder trimmed.
    pub fn new_from_single_yearspec(yearspec: &YearSpec, holder: &str) -> (r: DecomposedCopyright)
        ensures
            r@.years == seq![*yearspec],
            r@.holder == trimmed(holder@),
    {
        DecomposedCopyright { years: vec![*yearspec], holder: trim(holder).to_owned() }
    }
}

/// The error of strict parsing: the text, trimmed, that the grammar does
/// not fully match.
#[derive(Debug, Clone)]
pub struct CopyrightDecompositionError(pub String);

/// What a statement says once parsed under `o`: one line or several that
/// the grammar matches, or else the trimmed text.
pub open spec fn parse_copyright(o: YearRangeNormalization, s: Seq<char>) -> CopyrightView {
    match parse_lines(s, o) {
        Some(ds) => if ds.len() == 1 {
            CopyrightView::Decomposable(ds[0])
        } else {
            CopyrightView::MultilineDecomposable(ds)
        },
        None => CopyrightView::Complex(trimmed(s)),
    }
}

/// Some year specifier of `ys` covers `y`.
pub open spec fn year_covered(ys: Seq<YearSpec>, y: YearSpec) -> bool {
    exists|i: int| 0 <= i < ys.len() && (#[trigger] ys[i]).covers(y)
}

/// `a` covers `b`: the same holder once both are trimmed, and each year
/// specifier of `b` covered by some year specifier of `a`.
pub open spec fn decomposed_contains(a: DecomposedView, b: DecomposedView) -> bool {
    &&& trimmed(a.holder) == trimmed(b.holder)
    &&& forall|j: int| 0 <= j < b.years.len() ==> year_covered(a.years, #[trigger] b.years[j])
}

/// Some line of `ls` covers `d`.
pub open spec fn line_covered(ls: Seq<DecomposedView>, d: DecomposedView) -> bool {
    exists|i: int| 0 <= i < ls.len() && decomposed_contains(#[trigger] ls[i], d)
}

/// The decomposed lines of a statement; none for opaque text.
pub open spec fn lines_of(c: CopyrightView) -> Seq<DecomposedView> {
    match c {
        CopyrightView::Decomposable(d) => seq![d],
        CopyrightView::MultilineDecomposable(m) => m,
        CopyrightView::Complex(_) => seq![],
    }
}

/// `a` legally covers everything that `b` declares: opaque text covers, and
/// is covered by, only the very same opaque text; otherwise each line of
/// `b` is covered by some line of `a`.
pub open spec fn copyright_contains(a: CopyrightView, b: CopyrightView) -> bool {
    match (a, b) {
        (CopyrightView::Complex(x), CopyrightView::Complex(y)) => x == y,
        (CopyrightView::Complex(_), _) => false,
        (_, CopyrightView::Complex(_)) => false,
        _ => forall|j: int|
            0 <= j < lines_of(b).len() ==> line_covered(lines_of(a), #[trigger] lines_of(b)[j]),
    }
}

/// Every year specifier of every line is in order.
pub open spec fn years_wf(c: CopyrightView) -> bool {
    forall|k: int, m: int|
        0 <= k < lines_of(c).len() && 0 <= m < lines_of(c)[k].years.len() ==> (
        #[trigger] lines_of(c)[k].years[m]).wf()
}

/// Containment is reflexive: every statement whose year specifiers are in
/// order (as every parsed statement's are) contains itself.
pub proof fn lemma_contains_reflexive(c: CopyrightView)
    requires
        years_wf(c),
    ensures
        copyright_contains(c, c),
{
    if !(c is Complex) {
        let ls = lines_of(c);
        assert forall|j: int| 0 <= j < ls.len() implies line_covered(ls, #[trigger] ls[j]) by {
            let d = ls[j];
            assert forall|m: int| 0 <= m < d.years.len() implies year_covered(
                d.years,
                #[trigger] d.years[m],
            ) by {
                assert(lines_of(c)[j].years[m].wf());
                assert(d.years[m].covers(d.years[m]));
            }
            assert(decomposed_contains(ls[j], d));
        }
    }
}

/// Every statement contains itself once parsed, whatever the text and the
/// options: opaque text is the same text, and every year specifier that
/// the grammar reads covers itself.
pub proof fn lemma_parsed_contains_itself(o: YearRangeNormalization, s: Seq<char>)
    ensures
        copyright_contains(parse_copyright(o, s), parse_copyright(o, s)),
{
    lemma_parse_lines_wf(s, o);
    let c = parse_copyright(o, s);
    if let Some(ds) = parse_lines(s, o) {
        assert(lines_of(c) =~= (if ds.len() == 1 { seq![ds[0]] } else { ds }));
        assert forall|k: int, m: int|
            0 <= k < lines_of(c).len() && 0 <= m < lines_of(c)[k].years.len() implies (
            #[trigger] lines_of(c)[k].years[m]).wf() by {
            if ds.len() == 1 {
                assert(lines_of(c)[k] == ds[0]);
            } else {
                assert(lines_of(c)[k] == ds[k]);
            }
        }
    }
    lemma_contains_reflexive(c);
}

fn same_years(a: &Vec<YearSpec>, b: &Vec<YearSpec>) -> (r: bool)
    ensures
        r == (a@ == b@),
{
    if a.len() != b.len() {
        return false;
    }
    let mut i: usize = 0;
    while i < a.len()
        invariant
            a@.len() == b@.len(),
            i <= a@.len(),
            forall|k: int| 0 <= k < i ==> a@[k] == b@[k],
        decreases a@.len() - i,
    {
        if a[i] != b[i] {
            return false;
        }
        i += 1;
    }
    assert(a@ =~= b@);
    true
}

fn same_lines(a: &Vec<DecomposedCopyright>, b: &Vec<DecomposedCopyright>) -> (r: bool)
    ensures
        r == (views_of(a@) == views_of(b@)),
{
    if a.len() != b.len() {
        assert(views_of(a@).len() != views_of(b@).len());
        return false;
    }
    let mut i: usize = 0;
    while i < a.len()
        invariant
            a@.len() == b@.len(),
            i <= a@.len(),
            forall|k: int| 0 <= k < i ==> (#[trigger] a@[k])@ == b@[k]@,
        decreases a@.len() - i,
    {
        if !a[i].same_as(&b[i]) {
            assert(views_of(a@)[i as int] != views_of(b@)[i as int]);
            return false;
        }
        i += 1;
    }
    assert(views_of(a@) =~= views_of(b@));
    true
}

fn any_covers(ys: &Vec<YearSpec>, y: &YearSpec) -> (r: bool)
    ensures
        r == year_covered(ys@, *y),
{
    let mut i: usize = 0;
    while i < ys.len()
        invariant
            i <= ys@.len(),
            forall|k: int| 0 <= k < i ==> !(#[trigger] ys@[k]).covers(*y),
        decreases ys@.len() - i,
    {
        if ys[i].contains(y) {
            return true;
        }
        i += 1;
    }
    false
}

impl DecomposedCopyright {
    /// Does `self` cover `other`: same trimmed holder, and each year
    /// specifier of `other` within some year specifier of `self`?
    pub fn contains(&self, other: &DecomposedCopyright) -> (r: bool)
        ensures
            r == decomposed_contains(self@, other@),
    {
        let h1 = trim(self.holder.as_str());
        let h2 = trim(other.holder.as_str());
        if !same_text(h1, h2) {
            return false;
        }
        let mut j: usize = 0;
        while j < other.years.len()
            invariant
                j <= other.years@.len(),
                forall|k: int| 0 <= k < j ==> year_covered(self.years@, #[trigger] other.years@[k]),
            decreases other.years@.len() - j,
        {
            if !any_covers(&self.years, &other.years[j]) {
                assert(!year_covered(self@.years, other@.years[j as int]));
                return false;
            }
            j += 1;
        }
        true
    }
}

/// Does some line of `m` cover `d`?
pub fn vec_contains_decomposed(m: &Vec<DecomposedCopyright>, d: &DecomposedCopyright) -> (r: bool)
    ensures
        r == line_covered(views_of(m@), d@),
{
    let mut i: usize = 0;
    while i < m.len()
        invariant
            i <= m@.len(),
            forall|k: int| 0 <= k < i ==> !decomposed_contains(#[trigger] views_of(m@)[k], d@),
        decreases m@.len() - i,
    {
        if m[i].contains(d) {
            assert(views_of(m@)[i as int] == m@[i as int]@);
            return true;
        }
        i += 1;
    }
    false
}

fn all_lines_covered(m: &Vec<DecomposedCopyright>, others: &Vec<DecomposedCopyright>) -> (r: bool)
    ensures
        r == (forall|j: int|
            0 <= j < others@.len() ==> line_covered(views_of(m@), #[trigger] views_of(others@)[j])),
{
    let mut j: usize = 0;
    while j < others.len()
        invariant
            j <= others@.len(),
            forall|k: int|
                0 <= k < j ==> line_covered(views_of(m@), #[trigger] views_of(others@)[k]),
        decreases others@.len() - j,
    {
        if !vec_contains_decomposed(m, &others[j]) {
            assert(views_of(others@)[j as int] == others@[j as int]@);
            return false;
        }
        j += 1;
    }
    true
}

impl Copyright {
    /// Parse a statement, falling back to the opaque variant where the
    /// grammar does not fully match: this never fails.
    pub fn try_parse(options: YearRangeNormalization, statement: &str) -> (r: Result<
        Copyright,
        CopyrightDecompositionError,
    >)
        ensures
            r matches Ok(c) && c@ == parse_copyright(options, statement@) && years_wf(c@),
    {
        let s = chars_of(statement);
        match copyright_lines(&s, options) {
            Some(mut lines) => {
                if lines.len() == 1 {
                    let d = lines.pop().unwrap();
                    assert(views_of(lines@.push(d))[0] == d@);
                    Ok(Copyright::Decomposable(d))
                } else {
                    Ok(Copyright::MultilineDecomposable(lines))
                }
            },
            None => Ok(Copyright::Complex(trim(statement).to_owned())),
        }
    }

    /// Parse a statement that the grammar must fully match; the error holds
    /// the trimmed text where it does not.
    pub fn try_parse_strict(options: YearRangeNormalization, statement: &str) -> (r: Result<
        Copyright,
        CopyrightDecompositionError,
    >)
        ensures
            match r {
                Ok(c) => parse_lines(statement@, options) is Some && c@ == parse_copyright(
                    options,
                    statement@,
                ) && years_wf(c@),
                Err(e) => parse_lines(statement@, options) is None && e.0@ == trimmed(statement@),
            },
    {
        match Copyright::try_parse(options, statement) {
            Ok(Copyright::Complex(text)) => Err(CopyrightDecompositionError(text)),
            other => other,
        }
    }

    /// Does `self` legally cover everything that `other` declares?
    pub fn contains(&self, other: &Copyright) -> (r: bool)
        ensures
            r == copyright_contains(self@, other@),
    {
        match self {
            Copyright::Decomposable(d) => match other {
                Copyright::Decomposable(d2) => {
                    let r = d.contains(d2);
                    proof {
                        let ls = lines_of(self@);
                        assert(ls =~= seq![d@]);
                        assert(ls[0] == d@);
                        assert(lines_of(other@) =~= seq![d2@]);
                        assert(lines_of(other@)[0] == d2@);
                        if r {
                            assert(decomposed_contains(ls[0], d2@));
                            assert(line_covered(ls, lines_of(other@)[0]));
                        } else {
                            assert(!line_covered(ls, lines_of(other@)[0]));
                        }
                    }
                    r
                },
                Copyright::MultilineDecomposable(m2) => {
                    let mut j: usize = 0;
                    while j < m2.len()
                        invariant
                            j <= m2@.len(),
                            lines_of(self@) == seq![d@],
                            self@ == CopyrightView::Decomposable(d@),
                            other@ == CopyrightView::MultilineDecomposable(views_of(m2@)),
                            forall|k: int|
                                0 <= k < j ==> decomposed_contains(d@, #[trigger] views_of(m2@)[k]),
                        decreases m2@.len() - j,
                    {
                        if !d.contains(&m2[j]) {
                            proof {
                                let ls = lines_of(self@);
                                assert(ls[0] == d@);
                                assert(views_of(m2@)[j as int] == m2@[j as int]@);
                                assert(lines_of(other@) == views_of(m2@));
                                assert(!line_covered(ls, lines_of(other@)[j as int]));
                            }
                            return false;
                        }
                        j += 1;
                    }
                    assert(lines_of(other@) == views_of(m2@));
                    assert forall|k: int| 0 <= k < lines_of(other@).len() implies line_covered(
                        lines_of(self@),
                        #[trigger] lines_of(other@)[k],
                    ) by {
                        assert(lines_of(self@)[0] == d@);
                        assert(decomposed_contains(lines_of(self@)[0], views_of(m2@)[k]));
                    }
                    true
                },
                Copyright::Complex(_) => false,
            },
            Copyright::MultilineDecomposable(m) => match other {
                Copyright::Decomposable(d2) => {
                    let r = vec_contains_decomposed(m, d2);
                    proof {
                        assert(lines_of(other@) =~= seq![d2@]);
                        assert(lines_of(other@)[0] == d2@);
                        assert(lines_of(self@) == views_of(m@));
                        if !r {
                            assert(!line_covered(lines_of(self@), lines_of(other@)[0]));
                        }
                    }
                    r
                },
                Copyright::MultilineDecomposable(m2) => {
                    let r = all_lines_covered(m, m2);
                    proof {
                        assert(lines_of(other@) == views_of(m2@));
                        assert(lines_of(self@) == views_of(m@));
                    }
                    r
                },
                Copyright::Complex(_) => false,
            },
            Copyright::Complex(c) => match other {
                Copyright::Complex(c2) => same_text(c.as_str(), c2.as_str()),
                _ => false,
            },
        }
    }

    /// Do the two statements hold the same thing?
    pub fn same_as(&self, other: &Copyright) -> (r: bool)
        ensures
            r == (self@ == other@),
    {
        match (self, other) {
            (Copyright::Decomposable(a), Copyright::Decomposable(b)) => a.same_as(b),
            (Copyright::MultilineDecomposable(a), Copyright::MultilineDecomposable(b)) => same_lines(a, b),
            (Copyright::Complex(a), Copyright::Complex(b)) => same_text(a.as_str(), b.as_str()),
            _ => false,
        }
    }

    pub fn is_complex(&self) -> (r: bool)
        ensures
            r == (self@ is Complex),
    {
        match self {
            Copyright::Complex(_) => true,
            _ => false,
        }
    }

    pub fn is_multiline_decomposable(&self) -> (r: bool)
        ensures
            r == (self@ is MultilineDecomposable),
    {
        match self {
            Copyright::MultilineDecomposable(_) => true,
            _ => false,
        }
    }
}

} // verus!
