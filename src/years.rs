//! Years, year ranges, year specifiers, and the coalescing of ranges.

use vstd::prelude::*;

verus! {

/// A calendar year, as a plain number.
#[derive(Debug, Clone, Copy, PartialEq, Eq, Structural, PartialOrd, Ord, Hash)]
pub struct Year(pub u16);

/// A closed range of years, with `begin <= end`.
#[derive(Debug, Clone, Copy, PartialEq, Eq, Structural, PartialOrd, Ord, Hash)]
pub struct YearRange {
    begin: Year,
    end: Year,
}

/// Whether something "contains" a year or a range of years: every year
/// of the other lies between the lowest and the highest year of this.
pub trait YearContainment {
    spec fn lowest(&self) -> int;

    spec fn highest(&self) -> int;

    /// Is this single year included in this?
    fn contains_year(&self, other: &Year) -> (r: bool)
        ensures
            r == (self.lowest() <= other.0 <= self.highest()),
    ;

    /// Are both ends of this range included in this?
    fn contains_range(&self, other: &YearRange) -> (r: bool)
        ensures
            r == (self.lowest() <= other.first() <= self.highest() && self.lowest() <= other.last()
                <= self.highest()),
    ;
}

impl YearRange {
    /// First year of the range.
    pub closed spec fn first(&self) -> int {
        self.begin.0 as int
    }

    /// Last year of the range.
    pub closed spec fn last(&self) -> int {
        self.end.0 as int
    }

    #[verifier::type_invariant]
    spec fn ordered(&self) -> bool {
        self.begin.0 <= self.end.0
    }

    /// The range in the order of its first and last year.
    pub open spec fn wf(&self) -> bool {
        self.first() <= self.last()
    }

    /// The range holding the years `b..=e`.
    pub closed spec fn spec_new(b: int, e: int) -> YearRange {
        YearRange { begin: Year(b as u16), end: Year(e as u16) }
    }

    pub broadcast proof fn lemma_spec_new(b: int, e: int)
        requires
            0 <= b <= u16::MAX,
            0 <= e <= u16::MAX,
        ensures
            #[trigger] Self::spec_new(b, e).first() == b,
            Self::spec_new(b, e).last() == e,
    {
    }

    /// A range is determined by its bounds, which fit in `u16`.
    pub broadcast proof fn lemma_bounds(r: YearRange)
        ensures
            0 <= #[trigger] r.first() <= u16::MAX,
            0 <= r.last() <= u16::MAX,
            r == Self::spec_new(r.first(), r.last()),
    {
    }

    pub fn new(begin: Year, end: Year) -> (r: YearRange)
        requires
            begin.0 <= end.0,
        ensures
            r.first() == begin.0,
            r.last() == end.0,
    {
        YearRange { begin, end }
    }

    /// The range holding one year only.
    pub fn from_year(y: Year) -> (r: YearRange)
        ensures
            r.first() == y.0,
            r.last() == y.0,
    {
        YearRange { begin: y, end: y }
    }

    /// The range that a year specifier covers.
    pub fn from_year_spec(ys: YearSpec) -> (r: YearRange)
        ensures
            r == ys.as_range(),
    {
        match ys {
            YearSpec::SingleYear(y) => YearRange::from_year(y),
            YearSpec::ClosedRange(range) => range,
        }
    }

    pub fn begin(&self) -> (r: Year)
        ensures
            r.0 == self.first(),
    {
        self.begin
    }

    pub fn end(&self) -> (r: Year)
        ensures
            r.0 == self.last(),
    {
        self.end
    }

    pub fn is_single_year(&self) -> (r: bool)
        ensures
            r == (self.first() == self.last()),
    {
        self.begin.0 == self.end.0
    }

    fn can_add(&self, new_year: &Year) -> (r: bool)
        ensures
            r == can_add_year(*self, new_year.0 as int),
    {
        let y = new_year.0 as u32;
        let b = self.begin.0 as u32;
        let e = self.end.0 as u32;
        (b <= y && y <= e) || y == e + 1 || y + 1 == b
    }

    fn can_merge(&self, new_range: &YearRange) -> (r: bool)
        ensures
            r == can_merge(*self, *new_range),
    {
        self.can_add(&new_range.begin) || self.can_add(&new_range.end)
    }

    fn merge_with(self, other: YearRange) -> (r: YearRange)
        ensures
            r == merge_ranges(self, other),
    {
        proof {
            use_type_invariant(&self);
        }
        let begin = if self.begin.0 <= other.begin.0 {
            self.begin
        } else {
            other.begin
        };
        let end = if self.end.0 >= other.end.0 {
            self.end
        } else {
            other.end
        };
        YearRange { begin, end }
    }

    /// The range grown by one year at either end, or unchanged if the year
    /// is already in it; `None` if the year is neither in nor next to it.
    pub fn try_add(&self, new_year: Year) -> (r: Option<YearRange>)
        ensures
            r == (if self.first() <= new_year.0 <= self.last() {
                Some(*self)
            } else if new_year.0 == self.last() + 1 {
                Some(YearRange::spec_new(self.first(), new_year.0 as int))
            } else if new_year.0 == self.first() - 1 {
                Some(YearRange::spec_new(new_year.0 as int, self.last()))
            } else {
                None
            }),
    {
        proof {
            use_type_invariant(self);
        }
        let y = new_year.0 as u32;
        if new_year.0 <= self.end.0 && new_year.0 >= self.begin.0 {
            Some(*self)
        } else if y == self.end.0 as u32 + 1 {
            Some(YearRange { begin: self.begin, end: new_year })
        } else if y + 1 == self.begin.0 as u32 {
            Some(YearRange { begin: new_year, end: self.end })
        } else {
            None
        }
    }
}

impl YearContainment for YearRange {
    open spec fn lowest(&self) -> int {
        self.first()
    }

    open spec fn highest(&self) -> int {
        self.last()
    }

    fn contains_year(&self, other: &Year) -> (r: bool) {
        other.0 <= self.end.0 && other.0 >= self.begin.0
    }

    fn contains_range(&self, other: &YearRange) -> (r: bool) {
        self.contains_year(&other.begin) && self.contains_year(&other.end)
    }
}

impl YearContainment for Year {
    open spec fn lowest(&self) -> int {
        self.0 as int
    }

    open spec fn highest(&self) -> int {
        self.0 as int
    }

    fn contains_year(&self, other: &Year) -> (r: bool) {
        self.0 == other.0
    }

    fn contains_range(&self, other: &YearRange) -> (r: bool) {
        self.0 == other.begin.0 && self.0 == other.end.0
    }
}

/// A year specifier as written in a copyright statement.
#[derive(Debug, Clone, Copy, PartialEq, Eq, Structural, Hash)]
pub enum YearSpec {
    /// Just one year (2022)
    SingleYear(Year),
    /// Two years forming a range (2018-2022)
    ClosedRange(YearRange),
}

impl YearSpec {
    /// The range of years that this specifier covers.
    pub open spec fn as_range(self) -> YearRange {
        match self {
            YearSpec::SingleYear(y) => YearRange::spec_new(y.0 as int, y.0 as int),
            YearSpec::ClosedRange(r) => r,
        }
    }

    pub open spec fn lo(self) -> int {
        match self {
            YearSpec::SingleYear(y) => y.0 as int,
            YearSpec::ClosedRange(r) => r.first(),
        }
    }

    pub open spec fn hi(self) -> int {
        match self {
            YearSpec::SingleYear(y) => y.0 as int,
            YearSpec::ClosedRange(r) => r.last(),
        }
    }

    pub open spec fn wf(self) -> bool {
        self.lo() <= self.hi()
    }

    /// Every year of `other` is a year of `self`.
    pub open spec fn covers(self, other: YearSpec) -> bool {
        self.lo() <= other.lo() <= self.hi() && self.lo() <= other.hi() <= self.hi()
    }

    /// A single year.
    pub fn single(y: u16) -> (r: YearSpec)
        ensures
            r == YearSpec::SingleYear(Year(y)),
    {
        YearSpec::SingleYear(Year(y))
    }

    /// A closed range of years.
    pub fn range(begin: Year, end: Year) -> (r: YearSpec)
        requires
            begin.0 <= end.0,
        ensures
            r.lo() == begin.0,
            r.hi() == end.0,
            r is ClosedRange,
    {
        YearSpec::ClosedRange(YearRange::new(begin, end))
    }

    /// Does `self` cover every year that `other` names?
    pub fn contains(&self, other: &YearSpec) -> (r: bool)
        ensures
            r == self.covers(*other),
    {
        match other {
            YearSpec::SingleYear(y) => self.contains_year(y),
            YearSpec::ClosedRange(r) => self.contains_range(r),
        }
    }
}

impl YearContainment for YearSpec {
    open spec fn lowest(&self) -> int {
        self.lo()
    }

    open spec fn highest(&self) -> int {
        self.hi()
    }

    fn contains_year(&self, other: &Year) -> (r: bool) {
        match self {
            YearSpec::SingleYear(y) => y.contains_year(other),
            YearSpec::ClosedRange(r) => r.contains_year(other),
        }
    }

    fn contains_range(&self, other: &YearRange) -> (r: bool) {
        match self {
            YearSpec::SingleYear(y) => y.contains_range(other),
            YearSpec::ClosedRange(r) => r.contains_range(other),
        }
    }
}

/// The order of two integers.
pub open spec fn compare_ints(a: int, b: int) -> core::cmp::Ordering {
    if a < b {
        core::cmp::Ordering::Less
    } else if a == b {
        core::cmp::Ordering::Equal
    } else {
        core::cmp::Ordering::Greater
    }
}

pub open spec fn reversed(o: core::cmp::Ordering) -> core::cmp::Ordering {
    match o {
        core::cmp::Ordering::Less => core::cmp::Ordering::Greater,
        core::cmp::Ordering::Equal => core::cmp::Ordering::Equal,
        core::cmp::Ordering::Greater => core::cmp::Ordering::Less,
    }
}

/// A range against a single year: a range of one year compares as that
/// year; a wider range compares by its first year, and is incomparable to
/// the year it starts with.
pub open spec fn range_vs_year(r: YearRange, y: int) -> Option<core::cmp::Ordering> {
    if r.first() == r.last() {
        Some(compare_ints(r.first(), y))
    } else if r.first() == y {
        None
    } else {
        Some(compare_ints(r.first(), y))
    }
}

/// The partial order of year specifiers: years by value, ranges by first
/// then last year, a range and a year as `range_vs_year` says.
pub open spec fn year_spec_order(a: YearSpec, b: YearSpec) -> Option<core::cmp::Ordering> {
    match (a, b) {
        (YearSpec::SingleYear(x), YearSpec::SingleYear(y)) => Some(compare_ints(x.0 as int, y.0 as int)),
        (YearSpec::SingleYear(x), YearSpec::ClosedRange(r)) => match range_vs_year(r, x.0 as int) {
            Some(o) => Some(reversed(o)),
            None => None,
        },
        (YearSpec::ClosedRange(r), YearSpec::SingleYear(y)) => range_vs_year(r, y.0 as int),
        (YearSpec::ClosedRange(r), YearSpec::ClosedRange(q)) => if r.first() != q.first() {
            Some(compare_ints(r.first(), q.first()))
        } else {
            Some(compare_ints(r.last(), q.last()))
        },
    }
}

fn compare_u16(a: u16, b: u16) -> (r: core::cmp::Ordering)
    ensures
        r == compare_ints(a as int, b as int),
{
    if a < b {
        core::cmp::Ordering::Less
    } else if a == b {
        core::cmp::Ordering::Equal
    } else {
        core::cmp::Ordering::Greater
    }
}

impl YearRange {
    /// Compare with a single year, where the two are comparable.
    fn partial_order_single_year(&self, single: &Year) -> (r: Option<core::cmp::Ordering>)
        ensures
            r == range_vs_year(*self, single.0 as int),
    {
        if self.is_single_year() {
            Some(compare_u16(self.begin.0, single.0))
        } else if self.begin.0 == single.0 {
            None
        } else {
            Some(compare_u16(self.begin.0, single.0))
        }
    }
}

impl PartialOrd for YearSpec {
    fn partial_cmp(&self, other: &YearSpec) -> (r: Option<core::cmp::Ordering>) {
        match (self, other) {
            (YearSpec::SingleYear(y), YearSpec::SingleYear(other_y)) => Some(compare_u16(y.0, other_y.0)),
            (YearSpec::SingleYear(y), YearSpec::ClosedRange(range)) => match range.partial_order_single_year(y) {
                Some(core::cmp::Ordering::Less) => Some(core::cmp::Ordering::Greater),
                Some(core::cmp::Ordering::Equal) => Some(core::cmp::Ordering::Equal),
                Some(core::cmp::Ordering::Greater) => Some(core::cmp::Ordering::Less),
                None => None,
            },
            (YearSpec::ClosedRange(range), YearSpec::SingleYear(y)) => range.partial_order_single_year(y),
            (YearSpec::ClosedRange(range), YearSpec::ClosedRange(other_range)) => {
                if range.begin.0 != other_range.begin.0 {
                    Some(compare_u16(range.begin.0, other_range.begin.0))
                } else {
                    Some(compare_u16(range.end.0, other_range.end.0))
                }
            },
        }
    }
}

impl vstd::std_specs::cmp::PartialOrdSpecImpl for YearSpec {
    open spec fn obeys_partial_cmp_spec() -> bool {
        true
    }

    open spec fn partial_cmp_spec(&self, other: &YearSpec) -> Option<core::cmp::Ordering> {
        year_spec_order(*self, *other)
    }
}

impl From<Year> for YearRange {
    fn from(y: Year) -> (r: YearRange) {
        YearRange::from_year(y)
    }
}

impl vstd::std_specs::convert::FromSpecImpl<Year> for YearRange {
    open spec fn obeys_from_spec() -> bool {
        true
    }

    open spec fn from_spec(y: Year) -> YearRange {
        YearRange::spec_new(y.0 as int, y.0 as int)
    }
}

impl From<YearSpec> for YearRange {
    fn from(ys: YearSpec) -> (r: YearRange) {
        YearRange::from_year_spec(ys)
    }
}

impl vstd::std_specs::convert::FromSpecImpl<YearSpec> for YearRange {
    open spec fn obeys_from_spec() -> bool {
        true
    }

    open spec fn from_spec(ys: YearSpec) -> YearRange {
        ys.as_range()
    }
}

/// `y` lies in `r` or right next to one of its ends.
pub open spec fn can_add_year(r: YearRange, y: int) -> bool {
    (r.first() <= y <= r.last()) || y == r.last() + 1 || y == r.first() - 1
}

/// `b` overlaps `a` or touches it at one end.
pub open spec fn can_merge(a: YearRange, b: YearRange) -> bool {
    can_add_year(a, b.first()) || can_add_year(a, b.last())
}

/// The smallest range that holds both `a` and `b`.
pub open spec fn merge_ranges(a: YearRange, b: YearRange) -> YearRange {
    YearRange::spec_new(
        if a.first() <= b.first() {
            a.first()
        } else {
            b.first()
        },
        if a.last() >= b.last() {
            a.last()
        } else {
            b.last()
        },
    )
}

/// One left-to-right pass over `s` that merges each range into the
/// previous output range whenever the two can be merged.
pub open spec fn coalesce_seq(s: Seq<YearRange>) -> Seq<YearRange>
    decreases s.len(),
{
    if s.len() == 0 {
        seq![]
    } else {
        let prev = coalesce_seq(s.drop_last());
        let r = s.last();
        if prev.len() == 0 {
            seq![r]
        } else if can_merge(prev.last(), r) {
            prev.update(prev.len() - 1, merge_ranges(prev.last(), r))
        } else {
            prev.push(r)
        }
    }
}

/// Merge adjacent or overlapping neighbours, left to right.
pub fn coalesce_years(years: Vec<YearRange>) -> (r: Vec<YearRange>)
    ensures
        r@ == coalesce_seq(years@),
{
    let mut out: Vec<YearRange> = Vec::new();
    let mut i: usize = 0;
    while i < years.len()
        invariant
            i <= years.len(),
            out@ == coalesce_seq(years@.take(i as int)),
        decreases years.len() - i,
    {
        let r = years[i];
        assert(years@.take(i + 1).drop_last() == years@.take(i as int));
        if out.len() == 0 {
            out.push(r);
        } else {
            let last = out[out.len() - 1];
            if last.can_merge(&r) {
                let m = last.merge_with(r);
                out.pop();
                out.push(m);
            } else {
                out.push(r);
            }
        }
        i += 1;
    }
    assert(years@.take(years.len() as int) == years@);
    out
}

/// Every range of `s` is in order.
pub open spec fn all_wf(s: Seq<YearRange>) -> bool {
    forall|i: int| 0 <= i < s.len() ==> #[trigger] s[i].wf()
}

/// The first years of `s` never decrease.
pub open spec fn sorted_by_first(s: Seq<YearRange>) -> bool {
    forall|i: int, j: int| 0 <= i < j < s.len() ==> s[i].first() <= s[j].first()
}

/// Each range ends more than one year before the next one begins: the
/// ranges are disjoint, in ascending order, and no two of them touch.
pub open spec fn separated(s: Seq<YearRange>) -> bool {
    forall|i: int| 0 <= i < s.len() - 1 ==> #[trigger] s[i].last() + 1 < s[i + 1].first()
}

/// `a` comes no later than `b` when ranges are ordered by ascending first
/// year and, for equal first years, by descending last year, so that the
/// widest range starting at a year comes first.
pub open spec fn key_le(a: YearRange, b: YearRange) -> bool {
    a.first() < b.first() || (a.first() == b.first() && a.last() >= b.last())
}

pub open spec fn sorted_by_key(s: Seq<YearRange>) -> bool {
    forall|i: int, j: int| 0 <= i < j < s.len() ==> key_le(#[trigger] s[i], #[trigger] s[j])
}

/// `r` inserted into `s` after every range that does not come later.
pub open spec fn insert_sorted(s: Seq<YearRange>, r: YearRange) -> Seq<YearRange>
    decreases s.len(),
{
    if s.len() == 0 {
        seq![r]
    } else if key_le(s.last(), r) {
        s.push(r)
    } else {
        insert_sorted(s.drop_last(), r).push(s.last())
    }
}

/// The ranges of `s`, inserted one after the other into a sorted sequence.
pub open spec fn sort_ranges(s: Seq<YearRange>) -> Seq<YearRange>
    decreases s.len(),
{
    if s.len() == 0 {
        seq![]
    } else {
        insert_sorted(sort_ranges(s.drop_last()), s.last())
    }
}

/// The ranges of `rs` inserted one after the other into `s`.
pub open spec fn insert_all(s: Seq<YearRange>, rs: Seq<YearRange>) -> Seq<YearRange>
    decreases rs.len(),
{
    if rs.len() == 0 {
        s
    } else {
        insert_sorted(insert_all(s, rs.drop_last()), rs.last())
    }
}

/// The whole coalescer: sort, then merge neighbours.
pub open spec fn coalesced(s: Seq<YearRange>) -> Seq<YearRange> {
    coalesce_seq(sort_ranges(s))
}

/// Sort key of a range: ascending first year, then descending last year.
fn make_key(r: &YearRange) -> (k: (i32, i32))
    ensures
        k.0 == r.first(),
        k.1 == -r.last(),
{
    (r.begin.0 as i32, -(r.end.0 as i32))
}

fn key_precedes(a: &YearRange, b: &YearRange) -> (r: bool)
    ensures
        r == key_le(*a, *b),
{
    let ka = make_key(a);
    let kb = make_key(b);
    ka.0 < kb.0 || (ka.0 == kb.0 && ka.1 <= kb.1)
}

proof fn lemma_insert_sorted_at(s: Seq<YearRange>, r: YearRange, j: int)
    requires
        0 <= j <= s.len(),
        j == 0 || key_le(s[j - 1], r),
        forall|k: int| j <= k < s.len() ==> !key_le(#[trigger] s[k], r),
    ensures
        insert_sorted(s, r) == s.insert(j, r),
    decreases s.len(),
{
    if s.len() == 0 {
        assert(s.insert(j, r) =~= seq![r]);
    } else if j == s.len() {
        assert(s.insert(j, r) =~= s.push(r));
    } else {
        assert(!key_le(s[s.len() - 1], r));
        lemma_insert_sorted_at(s.drop_last(), r, j);
        assert(s.drop_last().insert(j, r).push(s.last()) =~= s.insert(j, r));
    }
}

proof fn lemma_insert_keeps_sorted(s: Seq<YearRange>, r: YearRange, j: int)
    requires
        sorted_by_key(s),
        0 <= j <= s.len(),
        j == 0 || key_le(s[j - 1], r),
        forall|k: int| j <= k < s.len() ==> !key_le(#[trigger] s[k], r),
    ensures
        sorted_by_key(s.insert(j, r)),
{
    let t = s.insert(j, r);
    assert forall|a: int, b: int| 0 <= a < b < t.len() implies key_le(#[trigger] t[a], #[trigger] t[b]) by {
        if a < j && b < j {
            assert(t[a] == s[a] && t[b] == s[b]);
        } else if a < j && b == j {
            assert(key_le(s[a], s[j - 1]) || a == j - 1);
        } else if a < j {
            assert(t[a] == s[a] && t[b] == s[b - 1]);
        } else if a == j {
            assert(!key_le(s[b - 1], r));
        } else {
            assert(t[a] == s[a - 1] && t[b] == s[b - 1]);
        }
    }
}

spec fn insert_pos(s: Seq<YearRange>, r: YearRange) -> int
    decreases s.len(),
{
    if s.len() == 0 {
        0
    } else if key_le(s.last(), r) {
        s.len() as int
    } else {
        insert_pos(s.drop_last(), r)
    }
}

proof fn lemma_insert_pos(s: Seq<YearRange>, r: YearRange)
    ensures
        0 <= insert_pos(s, r) <= s.len(),
        insert_pos(s, r) == 0 || key_le(s[insert_pos(s, r) - 1], r),
        forall|k: int| insert_pos(s, r) <= k < s.len() ==> !key_le(#[trigger] s[k], r),
    decreases s.len(),
{
    if s.len() > 0 && !key_le(s.last(), r) {
        let p = s.drop_last();
        lemma_insert_pos(p, r);
        assert forall|k: int| insert_pos(s, r) <= k < s.len() implies !key_le(#[trigger] s[k], r) by {
            if k < p.len() {
                assert(s[k] == p[k]);
            }
        }
    }
}

proof fn lemma_insert_sorted_props(s: Seq<YearRange>, r: YearRange)
    requires
        sorted_by_key(s),
        all_wf(s),
        r.wf(),
    ensures
        sorted_by_key(insert_sorted(s, r)),
        all_wf(insert_sorted(s, r)),
{
    let j = insert_pos(s, r);
    lemma_insert_pos(s, r);
    lemma_insert_sorted_at(s, r, j);
    lemma_insert_keeps_sorted(s, r, j);
    assert(all_wf(s.insert(j, r))) by {
        assert forall|k: int| 0 <= k < s.len() + 1 implies #[trigger] s.insert(j, r)[k].wf() by {
            if k < j {
            } else if k == j {
            } else {
                assert(s.insert(j, r)[k] == s[k - 1]);
            }
        }
    }
}

proof fn lemma_sort_ranges_props(s: Seq<YearRange>)
    requires
        all_wf(s),
    ensures
        sorted_by_key(sort_ranges(s)),
        all_wf(sort_ranges(s)),
    decreases s.len(),
{
    if s.len() > 0 {
        lemma_sort_ranges_props(s.drop_last());
        lemma_insert_sorted_props(sort_ranges(s.drop_last()), s.last());
    }
}

/// On ranges whose first years never decrease, the merge pass yields
/// ranges in order, disjoint, and no two of them adjacent.
pub proof fn lemma_coalesce_sorted(s: Seq<YearRange>)
    requires
        all_wf(s),
        sorted_by_first(s),
    ensures
        separated(coalesce_seq(s)),
        all_wf(coalesce_seq(s)),
        s.len() > 0 ==> coalesce_seq(s).len() > 0 && coalesce_seq(s).last().first()
            <= s.last().first(),
    decreases s.len(),
{
    broadcast use YearRange::lemma_spec_new, YearRange::lemma_bounds;

    if s.len() > 0 {
        let p = s.drop_last();
        lemma_coalesce_sorted(p);
        let prev = coalesce_seq(p);
        let r = s.last();
        assert(r.wf());
        if prev.len() > 0 {
            let l = prev.last();
            assert(l.first() <= p.last().first());
            assert(p.last().first() <= r.first());
            if can_merge(l, r) {
                let m = merge_ranges(l, r);
                assert(m.first() == l.first());
                let out = prev.update(prev.len() - 1, m);
                assert forall|i: int| 0 <= i < out.len() - 1 implies #[trigger] out[i].last() + 1
                    < out[i + 1].first() by {
                    assert(prev[i].last() + 1 < prev[i + 1].first());
                }
            } else {
                let out = prev.push(r);
                assert forall|i: int| 0 <= i < out.len() - 1 implies #[trigger] out[i].last() + 1
                    < out[i + 1].first() by {
                    if i < prev.len() - 1 {
                        assert(prev[i].last() + 1 < prev[i + 1].first());
                    }
                }
            }
        }
    }
}

proof fn lemma_coalesce_separated(s: Seq<YearRange>)
    requires
        all_wf(s),
        separated(s),
    ensures
        coalesce_seq(s) == s,
    decreases s.len(),
{
    if s.len() > 0 {
        let p = s.drop_last();
        assert(separated(p)) by {
            assert forall|i: int| 0 <= i < p.len() - 1 implies #[trigger] p[i].last() + 1
                < p[i + 1].first() by {
                assert(s[i].last() + 1 < s[i + 1].first());
            }
        }
        lemma_coalesce_separated(p);
        if p.len() > 0 {
            assert(s[s.len() - 2].last() + 1 < s[s.len() - 1].first());
            assert(s[s.len() - 1].wf());
            assert(s[s.len() - 2].wf());
            assert(p.last() == s[s.len() - 2]);
            assert(!can_merge(p.last(), s.last()));
        } else {
            assert(seq![s.last()] =~= s);
        }
        assert(p.push(s.last()) =~= s);
    }
}

/// Some range of `s` holds the year `y`.
pub open spec fn holds_year(s: Seq<YearRange>, y: int) -> bool {
    exists|i: int| 0 <= i < s.len() && #[trigger] s[i].first() <= y && y <= s[i].last()
}

proof fn lemma_merge_union(a: YearRange, b: YearRange, y: int)
    requires
        a.wf(),
        b.wf(),
        can_merge(a, b),
    ensures
        merge_ranges(a, b).wf(),
        (merge_ranges(a, b).first() <= y <= merge_ranges(a, b).last()) == ((a.first() <= y <= a.last())
            || (b.first() <= y <= b.last())),
{
    broadcast use YearRange::lemma_spec_new, YearRange::lemma_bounds;

}

/// The merge pass keeps the set of years: a year lies in some output range
/// exactly when it lies in some input range.
pub proof fn lemma_coalesce_keeps_years(s: Seq<YearRange>, y: int)
    requires
        all_wf(s),
    ensures
        holds_year(coalesce_seq(s), y) == holds_year(s, y),
        all_wf(coalesce_seq(s)),
        (coalesce_seq(s).len() == 0) == (s.len() == 0),
    decreases s.len(),
{
    if s.len() > 0 {
        let p = s.drop_last();
        let r = s.last();
        assert(r.wf());
        lemma_coalesce_keeps_years(p, y);
        let prev = coalesce_seq(p);
        let out = coalesce_seq(s);
        if holds_year(p, y) {
            let i = choose|i: int| 0 <= i < p.len() && #[trigger] p[i].first() <= y && y <= p[i].last();
            assert(s[i] == p[i]);
        }
        if holds_year(s, y) && !(r.first() <= y <= r.last()) {
            let i = choose|i: int| 0 <= i < s.len() && #[trigger] s[i].first() <= y && y <= s[i].last();
            assert(i < s.len() - 1);
            assert(p[i] == s[i]);
        }
        assert(holds_year(s, y) == (holds_year(p, y) || (r.first() <= y <= r.last())));
        if prev.len() == 0 {
            assert(out =~= seq![r]);
            if r.first() <= y <= r.last() {
                assert(out[0] == r);
            }
        } else {
            let n = prev.len() - 1;
            let l = prev[n];
            assert(l.wf());
            if can_merge(l, r) {
                let m = merge_ranges(l, r);
                lemma_merge_union(l, r, y);
                assert(out == prev.update(n, m));
                assert forall|k: int| 0 <= k < out.len() implies #[trigger] out[k].wf() by {
                    if k != n {
                        assert(out[k] == prev[k]);
                    }
                }
                if holds_year(prev, y) {
                    let i = choose|i: int| 0 <= i < prev.len() && #[trigger] prev[i].first() <= y && y
                        <= prev[i].last();
                    if i != n {
                        assert(out[i] == prev[i]);
                    } else {
                        assert(out[n] == m);
                    }
                }
                if r.first() <= y <= r.last() {
                    assert(out[n] == m);
                }
                if holds_year(out, y) {
                    let i = choose|i: int| 0 <= i < out.len() && #[trigger] out[i].first() <= y && y
                        <= out[i].last();
                    if i != n {
                        assert(out[i] == prev[i]);
                    } else {
                        assert(out[n] == m);
                        if l.first() <= y <= l.last() {
                            assert(prev[n] == l);
                        }
                    }
                }
            } else {
                assert(out == prev.push(r));
                assert forall|k: int| 0 <= k < out.len() implies #[trigger] out[k].wf() by {
                    if k < prev.len() {
                        assert(out[k] == prev[k]);
                    }
                }
                if holds_year(prev, y) {
                    let i = choose|i: int| 0 <= i < prev.len() && #[trigger] prev[i].first() <= y && y
                        <= prev[i].last();
                    assert(out[i] == prev[i]);
                }
                if r.first() <= y <= r.last() {
                    assert(out[prev.len() as int] == r);
                }
                if holds_year(out, y) {
                    let i = choose|i: int| 0 <= i < out.len() && #[trigger] out[i].first() <= y && y
                        <= out[i].last();
                    if i < prev.len() {
                        assert(out[i] == prev[i]);
                    }
                }
            }
        }
    }
}

/// Re-running the merge pass over its own output changes nothing, for
/// every input whose first years never decrease (the order in which a
/// collection hands its ranges over).
pub proof fn lemma_coalesce_idempotent(s: Seq<YearRange>)
    requires
        all_wf(s),
        sorted_by_first(s),
    ensures
        coalesce_seq(coalesce_seq(s)) == coalesce_seq(s),
{
    lemma_coalesce_sorted(s);
    lemma_coalesce_separated(coalesce_seq(s));
}

proof fn lemma_sort_separated(s: Seq<YearRange>)
    requires
        all_wf(s),
        separated(s),
    ensures
        sort_ranges(s) == s,
    decreases s.len(),
{
    if s.len() > 0 {
        let p = s.drop_last();
        assert(separated(p)) by {
            assert forall|i: int| 0 <= i < p.len() - 1 implies #[trigger] p[i].last() + 1
                < p[i + 1].first() by {
                assert(s[i].last() + 1 < s[i + 1].first());
            }
        }
        lemma_sort_separated(p);
        if p.len() > 0 {
            assert(s[s.len() - 2].last() + 1 < s[s.len() - 1].first());
            assert(s[s.len() - 2].wf());
        }
        assert(p.push(s.last()) =~= s);
    }
}

/// The full coalescer (sort, then merge: what a `YearRangeCollection` does
/// with the ranges accumulated into it) is idempotent for every sequence of
/// ranges: coalescing an already coalesced sequence is a no-op. Its output
/// is made of disjoint ranges in ascending order, no two of them adjacent.
pub proof fn lemma_coalesced_idempotent(s: Seq<YearRange>)
    requires
        all_wf(s),
    ensures
        coalesced(coalesced(s)) == coalesced(s),
        separated(coalesced(s)),
{
    lemma_sort_ranges_props(s);
    let t = sort_ranges(s);
    assert(sorted_by_first(t)) by {
        assert forall|i: int, j: int| 0 <= i < j < t.len() implies t[i].first() <= t[j].first() by {
            assert(key_le(t[i], t[j]));
        }
    }
    lemma_coalesce_sorted(t);
    let c = coalesce_seq(t);
    lemma_sort_separated(c);
    lemma_coalesce_separated(c);
}

/// Year ranges accumulated in the order of their sort key.
pub struct YearRangeCollection {
    ranges: Vec<YearRange>,
}

impl View for YearRangeCollection {
    type V = Seq<YearRange>;

    closed spec fn view(&self) -> Seq<YearRange> {
        self.ranges@
    }
}

impl YearRangeCollection {
    pub open spec fn wf(&self) -> bool {
        sorted_by_key(self@) && all_wf(self@)
    }

    pub fn new() -> (r: YearRangeCollection)
        ensures
            r@ == Seq::<YearRange>::empty(),
            r.wf(),
    {
        YearRangeCollection { ranges: Vec::new() }
    }

    /// Add the range that `year_spec` covers.
    pub fn accumulate(&mut self, year_spec: YearSpec)
        requires
            old(self).wf(),
        ensures
            final(self).wf(),
            final(self)@ == insert_sorted(old(self)@, year_spec.as_range()),
    {
        let r = YearRange::from_year_spec(year_spec);
        proof {
            use_type_invariant(&r);
        }
        let mut j: usize = self.ranges.len();
        while j > 0 && !key_precedes(&self.ranges[j - 1], &r)
            invariant
                j <= self.ranges.len(),
                forall|k: int| j <= k < self.ranges@.len() ==> !key_le(#[trigger] self.ranges@[k], r),
            decreases j,
        {
            j = j - 1;
        }
        proof {
            lemma_insert_sorted_at(self.ranges@, r, j as int);
            lemma_insert_sorted_props(self.ranges@, r);
        }
        self.ranges.insert(j, r);
    }

    /// Add the ranges that the year specifiers cover, in order.
    pub fn extend(&mut self, specs: &Vec<YearSpec>)
        requires
            old(self).wf(),
        ensures
            final(self).wf(),
            final(self)@ == insert_all(old(self)@, specs@.map_values(|y: YearSpec| y.as_range())),
    {
        let ghost rs = specs@.map_values(|y: YearSpec| y.as_range());
        let mut i: usize = 0;
        assert(rs.take(0) =~= Seq::<YearRange>::empty());
        while i < specs.len()
            invariant
                i <= specs@.len(),
                rs == specs@.map_values(|y: YearSpec| y.as_range()),
                self.wf(),
                self@ == insert_all(old(self)@, rs.take(i as int)),
            decreases specs@.len() - i,
        {
            self.accumulate(specs[i]);
            assert(rs.take(i + 1).drop_last() =~= rs.take(i as int));
            i += 1;
        }
        assert(rs.take(specs@.len() as int) =~= rs);
    }

    /// The accumulated ranges, sorted and merged into disjoint, non-adjacent ranges.
    pub fn into_coalesced_vec(self) -> (r: Vec<YearRange>)
        requires
            self.wf(),
        ensures
            r@ == coalesce_seq(self@),
            separated(r@),
            all_wf(r@),
    {
        proof {
            assert(sorted_by_first(self@)) by {
                assert forall|i: int, j: int| 0 <= i < j < self@.len() implies self@[i].first()
                    <= self@[j].first() by {
                    assert(key_le(self@[i], self@[j]));
                }
            }
            lemma_coalesce_sorted(self@);
        }
        coalesce_years(self.ranges)
    }
}

} // verus!
