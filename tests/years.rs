use copyright_tree::century::{get_century, get_two_digit_year};
use copyright_tree::years::{coalesce_years, Year, YearContainment, YearRange, YearRangeCollection, YearSpec};

#[test]
fn year_and_year_range_contains() {
    let year_2024 = Year(2024);
    let year_2025 = Year(2025);
    let year_2023 = Year(2023);
    let range_2024 = YearRange::new(year_2024, year_2024);
    let range_2024_2025 = YearRange::new(year_2024, year_2025);
    let range_2023_2024 = YearRange::new(year_2023, year_2024);

    // 2024 only
    assert!(year_2024.contains_year(&year_2024));
    assert!(!year_2024.contains_year(&year_2025));
    assert!(!year_2024.contains_year(&year_2023));

    assert!(year_2024.contains_range(&range_2024));
    assert!(!year_2024.contains_range(&range_2024_2025));
    assert!(!year_2024.contains_range(&range_2023_2024));

    assert!(range_2024.contains_year(&year_2024));
    assert!(!range_2024.contains_year(&year_2025));
    assert!(!range_2024.contains_year(&year_2023));

    assert!(range_2024.contains_range(&range_2024));
    assert!(!range_2024.contains_range(&range_2024_2025));
    assert!(!range_2024.contains_range(&range_2023_2024));

    // 2024-2025
    assert!(range_2024_2025.contains_year(&year_2024));
    assert!(range_2024_2025.contains_year(&year_2025));
    assert!(!range_2024_2025.contains_year(&year_2023));

    assert!(range_2024_2025.contains_range(&range_2024));
    assert!(range_2024_2025.contains_range(&range_2024_2025));
    assert!(!range_2024_2025.contains_range(&range_2023_2024));

    // 2023-2024
    assert!(range_2023_2024.contains_year(&year_2024));
    assert!(!range_2023_2024.contains_year(&year_2025));
    assert!(range_2023_2024.contains_year(&year_2023));

    assert!(range_2023_2024.contains_range(&range_2024));
    assert!(!range_2023_2024.contains_range(&range_2024_2025));
    assert!(range_2023_2024.contains_range(&range_2023_2024));
}

#[test]
fn year_spec_contains() {
    let year_2024 = Year(2024);
    let year_2025 = Year(2025);
    let year_2023 = Year(2023);
    let range_2024 = YearRange::new(year_2024, year_2024);
    let range_2024_2025 = YearRange::new(year_2024, year_2025);
    let range_2023_2024 = YearRange::new(year_2023, year_2024);

    let year_spec_2024 = YearSpec::single(2024);
    let range_spec_2024 = YearSpec::range(Year(2024), Year(2024));
    let range_spec_2024_2025 = YearSpec::range(Year(2024), Year(2025));
    let range_spec_2023_2024 = YearSpec::range(Year(2023), Year(2024));
    // 2024 only
    assert!(year_spec_2024.contains_year(&year_2024));
    assert!(!year_spec_2024.contains_year(&year_2025));
    assert!(!year_spec_2024.contains_year(&year_2023));

    assert!(year_spec_2024.contains_range(&range_2024));
    assert!(!year_spec_2024.contains_range(&range_2024_2025));
    assert!(!year_spec_2024.contains_range(&range_2023_2024));

    assert!(range_spec_2024.contains_year(&year_2024));
    assert!(!range_spec_2024.contains_year(&year_2025));
    assert!(!range_spec_2024.contains_year(&year_2023));

    assert!(range_spec_2024.contains_range(&range_2024));
    assert!(!range_spec_2024.contains_range(&range_2024_2025));
    assert!(!range_spec_2024.contains_range(&range_2023_2024));

    // 2024-2025
    assert!(range_spec_2024_2025.contains_year(&year_2024));
    assert!(range_spec_2024_2025.contains_year(&year_2025));
    assert!(!range_spec_2024_2025.contains_year(&year_2023));

    assert!(range_spec_2024_2025.contains_range(&range_2024));
    assert!(range_spec_2024_2025.contains_range(&range_2024_2025));
    assert!(!range_spec_2024_2025.contains_range(&range_2023_2024));

    // 2023-2024
    assert!(range_spec_2023_2024.contains_year(&year_2024));
    assert!(!range_spec_2023_2024.contains_year(&year_2025));
    assert!(range_spec_2023_2024.contains_year(&year_2023));

    assert!(range_spec_2023_2024.contains_range(&range_2024));
    assert!(!range_spec_2023_2024.contains_range(&range_2024_2025));
    assert!(range_spec_2023_2024.contains_range(&range_2023_2024));
}

#[test]
fn year_spec_contains_spec() {
    let wide = YearSpec::range(Year(2018), Year(2022));
    assert!(wide.contains(&YearSpec::single(2020)));
    assert!(wide.contains(&YearSpec::range(Year(2019), Year(2022))));
    assert!(!wide.contains(&YearSpec::range(Year(2017), Year(2019))));
    assert!(!YearSpec::single(2020).contains(&wide));
}

#[test]
fn test_get_century() {
    assert_eq!(get_century(2005), 21);
    assert_eq!(get_century(2105), 22);
    assert_eq!(get_century(1995), 20);
    assert_eq!(get_century(2095), 21);
}

#[test]
fn test_get_two_digit() {
    assert_eq!(get_two_digit_year(2005), 05);
    assert_eq!(get_two_digit_year(2105), 05);
    assert_eq!(get_two_digit_year(1995), 95);
    assert_eq!(get_two_digit_year(2095), 95);
}

fn r(b: u16, e: u16) -> YearRange {
    YearRange::new(Year(b), Year(e))
}

#[test]
fn coalesce_adjacent_ranges_merge() {
    assert_eq!(coalesce_years(vec![r(2018, 2019), r(2020, 2022)]), vec![r(2018, 2022)]);
}

#[test]
fn coalesce_gap_stays_disjoint() {
    assert_eq!(
        coalesce_years(vec![r(2018, 2019), r(2021, 2022)]),
        vec![r(2018, 2019), r(2021, 2022)]
    );
}

#[test]
fn coalesce_overlap_and_empty() {
    assert_eq!(coalesce_years(vec![]), Vec::<YearRange>::new());
    assert_eq!(coalesce_years(vec![r(2000, 2005), r(2003, 2004), r(2006, 2006)]), vec![r(2000, 2006)]);
}

#[test]
fn collection_sorts_and_coalesces() {
    let mut c = YearRangeCollection::new();
    c.accumulate(YearSpec::single(2024));
    c.accumulate(YearSpec::range(Year(2018), Year(2019)));
    c.accumulate(YearSpec::single(2020));
    c.accumulate(YearSpec::range(Year(2018), Year(2022)));
    c.accumulate(YearSpec::single(2010));
    assert_eq!(c.into_coalesced_vec(), vec![r(2010, 2010), r(2018, 2022), r(2024, 2024)]);
}

#[test]
fn collection_coalescing_is_idempotent() {
    let mut c = YearRangeCollection::new();
    for y in [2001u16, 1999, 2000, 2005, 2007, 2006] {
        c.accumulate(YearSpec::single(y));
    }
    let once = c.into_coalesced_vec();
    assert_eq!(once, vec![r(1999, 2001), r(2005, 2007)]);
    let mut again = YearRangeCollection::new();
    for range in &once {
        again.accumulate(YearSpec::range(range.begin(), range.end()));
    }
    assert_eq!(again.into_coalesced_vec(), once);
    assert_eq!(coalesce_years(once.clone()), once);
}

#[test]
fn range_try_add() {
    let base = r(2010, 2012);
    assert_eq!(base.try_add(Year(2011)), Some(base));
    assert_eq!(base.try_add(Year(2013)), Some(r(2010, 2013)));
    assert_eq!(base.try_add(Year(2009)), Some(r(2009, 2012)));
    assert_eq!(base.try_add(Year(2015)), None);
    assert!(r(2010, 2010).is_single_year());
    assert!(!base.is_single_year());
}

#[test]
fn collection_extend_matches_accumulate() {
    let specs = vec![YearSpec::single(2003), YearSpec::range(Year(2000), Year(2001)), YearSpec::single(2002)];
    let mut a = YearRangeCollection::new();
    a.extend(&specs);
    assert_eq!(a.into_coalesced_vec(), vec![r(2000, 2003)]);
}

#[test]
fn coalesce_at_the_ends_of_the_year_type() {
    assert_eq!(coalesce_years(vec![r(0, 0), r(1, 1)]), vec![r(0, 1)]);
    assert_eq!(coalesce_years(vec![r(65534, 65534), r(65535, 65535)]), vec![r(65534, 65535)]);
    assert_eq!(r(65535, 65535).try_add(Year(0)), None);
    assert_eq!(r(0, 0).try_add(Year(65535)), None);
}
