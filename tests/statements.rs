use copyright_tree::copyright::{Copyright, DecomposedCopyright};
use copyright_tree::grammar::{
    copyright_line, four_digit_year, two_digit_year, year, year_range, year_spec, year_spec_vec,
};
use copyright_tree::raw_year::{RawYear, YearExpr, YearRangeNormalization};
use copyright_tree::years::{Year, YearSpec};

fn chars(s: &str) -> Vec<char> {
    s.chars().collect()
}

/// The value read, if the parser read the whole text.
fn whole<T>(text: &str, parse: impl Fn(&Vec<char>, usize) -> Option<(T, usize)>) -> Option<T> {
    let s = chars(text);
    match parse(&s, 0) {
        Some((v, n)) if n == s.len() => Some(v),
        _ => None,
    }
}

fn four_value(y: YearExpr) -> u16 {
    y.to_four_digit().into_inner()
}

#[test]
fn contains() {
    let two_liner = Copyright::try_parse(
        YearRangeNormalization::default(),
        "Copyright 2024, Rylie Pavlik
        Copyright 2020, 2022-2024, Collabora, Ltd.",
    )
    .unwrap();
    assert!(two_liner.is_multiline_decomposable());
    assert!(!two_liner.is_complex());

    let rylie_2024 =
        Copyright::try_parse(YearRangeNormalization::default(), "Copyright 2024, Rylie Pavlik").unwrap();
    assert!(!rylie_2024.is_multiline_decomposable());
    assert!(!rylie_2024.is_complex());

    assert!(two_liner.contains(&rylie_2024));

    let collabora_year_and_range = Copyright::try_parse(
        YearRangeNormalization::default(),
        "Copyright 2020, 2022-2024, Collabora, Ltd.",
    )
    .unwrap();
    assert!(two_liner.contains(&collabora_year_and_range));

    let collabora_2020 =
        Copyright::try_parse(YearRangeNormalization::default(), "Copyright 2020, Collabora, Ltd.").unwrap();
    assert!(two_liner.contains(&collabora_2020));

    let collabora_2021 =
        Copyright::try_parse(YearRangeNormalization::default(), "Copyright 2021, Collabora, Ltd.").unwrap();
    assert!(!two_liner.contains(&collabora_2021));

    let collabora_2022_thru_2024 = Copyright::try_parse(
        YearRangeNormalization::default(),
        "Copyright 2022-2024, Collabora, Ltd.",
    )
    .unwrap();
    assert!(two_liner.contains(&collabora_2022_thru_2024));

    let collabora_2022_thru_2023 = Copyright::try_parse(
        YearRangeNormalization::default(),
        "Copyright 2022-2023, Collabora, Ltd.",
    )
    .unwrap();
    assert!(two_liner.contains(&collabora_2022_thru_2023));

    let collabora_2021_thru_2023 = Copyright::try_parse(
        YearRangeNormalization::default(),
        "Copyright 2021-2023, Collabora, Ltd.",
    )
    .unwrap();
    assert!(!two_liner.contains(&collabora_2021_thru_2023));
}

#[test]
fn containment_is_reflexive_on_parsed_statements() {
    let opts = YearRangeNormalization::default();
    for text in [
        "Copyright 2024, Rylie Pavlik",
        "2020, 2022-2024, Collabora, Ltd.\n2019 Someone, Else",
        "Copyright 2020, A\n\n  Copyright 2021-2023, B",
        "not a statement at all",
    ] {
        let c = Copyright::try_parse(opts, text).unwrap();
        assert!(c.contains(&c), "{text}");
    }
}

#[test]
fn opaque_text_contains_only_identical_text() {
    let opts = YearRangeNormalization::default();
    let a = Copyright::try_parse(opts, "  Some text without years  ").unwrap();
    assert_eq!(a, Copyright::Complex("Some text without years".to_string()));
    let b = Copyright::try_parse(opts, "Some text without years").unwrap();
    let c = Copyright::try_parse(opts, "Other text").unwrap();
    let d = Copyright::try_parse(opts, "Copyright 2024, Other text").unwrap();
    assert!(a.contains(&b));
    assert!(!a.contains(&c));
    assert!(!a.contains(&d));
    assert!(!d.contains(&a));
}

#[test]
fn parse_shapes() {
    let opts = YearRangeNormalization::default();
    assert_eq!(
        Copyright::try_parse(opts, "Copyright 2024, Rylie Pavlik").unwrap(),
        Copyright::Decomposable(DecomposedCopyright::new(&[YearSpec::single(2024)], "Rylie Pavlik"))
    );
    assert_eq!(
        Copyright::try_parse(opts, "COPYRIGHT (C) 2019-2021, Foo").unwrap(),
        Copyright::Decomposable(DecomposedCopyright::new(
            &[YearSpec::range(Year(2019), Year(2021))],
            "Foo"
        ))
    );
    assert_eq!(
        Copyright::try_parse(opts, "copr 95, Foo").unwrap(),
        Copyright::Decomposable(DecomposedCopyright::new(&[YearSpec::single(1995)], "Foo"))
    );
    assert_eq!(
        Copyright::try_parse(opts, "2024,").unwrap(),
        Copyright::Decomposable(DecomposedCopyright::new(&[YearSpec::single(2024)], ""))
    );
    // a line that does not match makes the whole text opaque
    assert!(Copyright::try_parse(opts, "Copyright 2024, A\nwhatever").unwrap().is_complex());
    assert!(Copyright::try_parse(opts, "Copyright 1995-20, A").unwrap().is_complex());
    let rollover = opts.allow_mixed_size_implied_century_rollover(true);
    assert_eq!(
        Copyright::try_parse(rollover, "Copyright 1995-20, A").unwrap(),
        Copyright::Decomposable(DecomposedCopyright::new(
            &[YearSpec::range(Year(1995), Year(2020))],
            "A"
        ))
    );
}

#[test]
fn strict_parsing_reports_the_text() {
    let opts = YearRangeNormalization::default();
    assert!(Copyright::try_parse_strict(opts, "2024, A").is_ok());
    let err = Copyright::try_parse_strict(opts, " nothing here ").unwrap_err();
    assert_eq!(err.0, "nothing here");
}

#[test]
fn copyright_parsing_parse_year_spec() {
    let opts = YearRangeNormalization::default();
    let configured = |text: &str| whole(text, |s, i| year_spec(s, i, opts));
    assert_eq!(configured("2022"), Some(YearSpec::SingleYear(Year(2022))));
    assert!(configured("2022-").is_none());

    assert!(configured("1995-20").is_none());
    let rollover = YearRangeNormalization::default().allow_mixed_size_implied_century_rollover(true);
    assert_eq!(
        whole("1995-20", |s, i| year_spec(s, i, rollover)),
        Some(YearSpec::range(Year(1995), Year(2020)))
    );

    assert!(configured("1995-1821").is_none());

    assert_eq!(configured("1995-2022"), Some(YearSpec::range(Year(1995), Year(2022))));
    assert_eq!(configured("1995 - 2022"), Some(YearSpec::range(Year(1995), Year(2022))));
    assert_eq!(configured("1995"), Some(YearSpec::single(1995)));
}

#[test]
fn copyright_parsing_parse_year_spec_vec() {
    let opt = YearRangeNormalization::default;
    let list = |text: &str, o: YearRangeNormalization| whole(text, |s, i| year_spec_vec(s, i, o));

    assert_eq!(list("2022", opt()), Some(vec![YearSpec::SingleYear(Year(2022))]));
    assert!(list("2022-", opt()).is_none());
    assert!(list("1995-1821", opt()).is_none());

    assert!(list("1995-20", opt()).is_none());
    assert_eq!(
        list("1995-20", opt().allow_mixed_size_implied_century_rollover(true)),
        Some(vec![YearSpec::range(Year(1995), Year(2020))])
    );

    assert_eq!(list("1995-2022", opt()), Some(vec![YearSpec::range(Year(1995), Year(2022))]));
    assert_eq!(list("1995 - 2022", opt()), Some(vec![YearSpec::range(Year(1995), Year(2022))]));
    assert_eq!(list("1995", opt()), Some(vec![YearSpec::single(1995)]));

    assert_eq!(list("1995 1996", opt()), Some(vec![YearSpec::single(1995), YearSpec::single(1996)]));
    assert_eq!(list("1995, 1996", opt()), Some(vec![YearSpec::single(1995), YearSpec::single(1996)]));

    assert_eq!(
        list("1995, 1996, 1997-2001", opt()),
        Some(vec![
            YearSpec::single(1995),
            YearSpec::single(1996),
            YearSpec::range(Year(1997), Year(2001))
        ])
    );
}

#[test]
fn test_line() {
    let opt = YearRangeNormalization::default;
    assert_eq!(
        whole("Copyright 2024, Rylie Pavlik", |s, i| copyright_line(s, i, opt())),
        Some(DecomposedCopyright::new_from_single_yearspec(&YearSpec::single(2024), "Rylie Pavlik"))
    );

    assert_eq!(
        whole("2024, Rylie Pavlik", |s, i| copyright_line(s, i, opt())),
        Some(DecomposedCopyright::new_from_single_yearspec(&YearSpec::single(2024), "Rylie Pavlik"))
    );
}

#[test]
fn parse_year() {
    assert!(whole("20", four_digit_year).is_none());
    assert!(whole("202", year).is_none());
    assert!(whole("19", four_digit_year).is_none());
    assert!(whole("199", year).is_none());

    assert_eq!(whole("20", year).map(four_value), Some(2020));
    assert_eq!(whole("2022", year).map(four_value), Some(2022));
    assert_eq!(whole("19", year).map(four_value), Some(2019));
    assert_eq!(whole("2022", year).map(four_value), Some(2022));
    assert_eq!(whole("1995", year).map(four_value), Some(1995));
    assert!(whole("20222", year).is_none());
}

#[test]
fn parse_four_digit_year() {
    assert!(four_digit_year(&chars("202"), 0).is_none());
    assert!(four_digit_year(&chars("20"), 0).is_none());
    assert!(four_digit_year(&chars("199"), 0).is_none());
    assert!(four_digit_year(&chars("19"), 0).is_none());

    assert_eq!(four_digit_year(&chars("2022"), 0), Some((YearExpr::new_four_digit(2022), 4)));
    assert_eq!(four_digit_year(&chars("2022"), 0), Some((YearExpr::new_four_digit(2022), 4)));
    assert_eq!(four_digit_year(&chars("1995"), 0), Some((YearExpr::new_four_digit(1995), 4)));
    assert!(whole("20222", four_digit_year).is_none());
}

#[test]
fn parse_two_digityear() {
    assert!(whole("202", two_digit_year).is_none());
    assert!(whole("2020", two_digit_year).is_none());
    assert!(whole("199", two_digit_year).is_none());
    assert!(whole("1995", two_digit_year).is_none());

    assert_eq!(two_digit_year(&chars("20"), 0).map(|(y, _)| four_value(y)), Some(2020));
    assert_eq!(two_digit_year(&chars("19"), 0).map(|(y, _)| four_value(y)), Some(2019));
    assert_eq!(two_digit_year(&chars("85"), 0).map(|(y, _)| four_value(y)), Some(1985));
}

#[test]
fn parse_year2() {
    assert!(whole("202", year).is_none());
    assert!(whole("20", four_digit_year).is_none());
    assert!(whole("199", year).is_none());
    assert!(whole("19", four_digit_year).is_none());

    assert_eq!(whole("20", year).map(four_value), Some(2020));
    assert_eq!(whole("2022", year).map(four_value), Some(2022));
    assert_eq!(whole("19", year).map(four_value), Some(2019));
    assert_eq!(whole("2022", year).map(four_value), Some(2022));
    assert_eq!(whole("1995", year).map(four_value), Some(1995));
    assert!(whole("20222", year).is_none());
}

#[test]
fn parse_year_range() {
    assert!(whole("2022", year_range).is_none());
    assert!(whole("2022-", year_range).is_none());
    assert!(whole("1995-1821", year_range).is_none());

    assert_eq!(
        whole("1995-20", year_range),
        Some((YearExpr::new_four_digit(1995), YearExpr::new_two_digit(20)))
    );
    assert_eq!(
        whole("1995-2022", year_range),
        Some((YearExpr::new_four_digit(1995), YearExpr::new_four_digit(2022)))
    );
    assert_eq!(
        whole("1995 - 2022", year_range),
        Some((YearExpr::new_four_digit(1995), YearExpr::new_four_digit(2022)))
    );
}

#[test]
fn two_digit_y2k_span() {
    let guess = YearRangeNormalization::new().allow_century_guess(true);
    let y2k = YearRangeNormalization::new().allow_assuming_y2k_span(true);
    assert!(whole("1995-20", |s, i| year_spec(s, i, guess)).is_none());
    assert!(whole("95-20", |s, i| year_spec(s, i, guess)).is_none());
    assert_eq!(
        whole("95-20", |s, i| year_spec(s, i, y2k)),
        Some(YearSpec::range(Year(1995), Year(2020)))
    );
    assert_eq!(whole("95-95", |s, i| year_spec(s, i, YearRangeNormalization::new())), Some(YearSpec::single(1995)));
}

#[test]
fn line_endings() {
    let opts = YearRangeNormalization::default();
    let crlf = Copyright::try_parse(opts, "Copyright 2020, A\r\nCopyright 2021, B").unwrap();
    assert_eq!(
        crlf,
        Copyright::MultilineDecomposable(vec![
            DecomposedCopyright::new(&[YearSpec::single(2020)], "A"),
            DecomposedCopyright::new(&[YearSpec::single(2021)], "B"),
        ])
    );
    assert!(Copyright::try_parse(opts, "Copyright 2020, A\rB").unwrap().is_complex());
    let blank_lines = Copyright::try_parse(opts, "2020, A\n\n\n   2021, B\n").unwrap();
    assert!(blank_lines.is_multiline_decomposable());
}

#[test]
fn holders_are_trimmed_of_unicode_white_space() {
    let opts = YearRangeNormalization::default();
    assert_eq!(
        Copyright::try_parse(opts, "2024, \u{3000}Holder\u{a0}\u{2003}").unwrap(),
        Copyright::Decomposable(DecomposedCopyright::new(&[YearSpec::single(2024)], "Holder"))
    );
}
