use copyright_tree::raw_year::{
    ConfigurableRawYearRange, FourDigitYear, IsProper, RawYear, RawYearRange, TryIsProper,
    TwoDigitYear, YearExpr, YearRangeNormalization,
};

fn two(y: u16) -> TwoDigitYear {
    TwoDigitYear::new(y)
}

fn four(y: u16) -> FourDigitYear {
    FourDigitYear::new(y)
}

#[test]
fn to_four_digit_year() {
    assert_eq!(two(59).to_four_digit().into_inner(), 2059);

    assert_eq!(four(2059).to_four_digit().into_inner(), 2059);
    assert_eq!(four(1959).to_four_digit().into_inner(), 1959);

    assert_eq!(two(95).to_four_digit().into_inner(), 1995);

    assert_eq!(four(1995).to_four_digit().into_inner(), 1995);
    assert_eq!(four(2095).to_four_digit().into_inner(), 2095);
}

#[test]
fn default_heuristic_threshold() {
    assert_eq!(two(95).to_four_digit().into_inner(), 1995);
    assert_eq!(two(20).to_four_digit().into_inner(), 2020);
    assert_eq!(two(59).to_four_digit().into_inner(), 2059);
    assert_eq!(two(60).to_four_digit().into_inner(), 1960);
    assert_eq!(two(0).to_four_digit().into_inner(), 2000);
    assert_eq!(two(99).to_four_digit().into_inner(), 1999);
}

#[test]
fn with_guessed_century() {
    {
        assert_eq!(two(59).to_four_digit_with_century_hint(20).into_inner(), 1959);
        assert_eq!(four(2059).to_four_digit_with_century_hint(20).into_inner(), 2059);
        assert_eq!(four(1959).to_four_digit_with_century_hint(20).into_inner(), 1959);
        assert_eq!(two(95).to_four_digit_with_century_hint(20).into_inner(), 1995);
        assert_eq!(four(1995).to_four_digit_with_century_hint(20).into_inner(), 1995);
        assert_eq!(four(2095).to_four_digit_with_century_hint(20).into_inner(), 2095);
    }
    {
        assert_eq!(two(59).to_four_digit_with_century_hint(21).into_inner(), 2059);
        assert_eq!(four(2059).to_four_digit_with_century_hint(21).into_inner(), 2059);
        assert_eq!(four(1959).to_four_digit_with_century_hint(21).into_inner(), 1959);
        assert_eq!(two(95).to_four_digit_with_century_hint(21).into_inner(), 2095);
        assert_eq!(four(1995).to_four_digit_with_century_hint(21).into_inner(), 1995);
        assert_eq!(four(2095).to_four_digit_with_century_hint(21).into_inner(), 2095);
    }
}

#[test]
fn two_digit_year() {
    assert_eq!(two(59).two_digit().into_inner(), 59);

    assert_eq!(four(2059).two_digit().into_inner(), 59);
    assert_eq!(four(1959).two_digit().into_inner(), 59);

    assert_eq!(two(95).two_digit().into_inner(), 95);

    assert_eq!(four(1995).two_digit().into_inner(), 95);
    assert_eq!(four(2095).two_digit().into_inner(), 95);
}

#[test]
fn century() {
    assert_eq!(two(59).try_century(), None);

    assert_eq!(four(2059).try_century(), Some(21));
    assert_eq!(four(1959).try_century(), Some(20));

    assert_eq!(two(95).try_century(), None);

    assert_eq!(four(1995).try_century(), Some(20));
    assert_eq!(four(2095).try_century(), Some(21));
}

#[test]
fn year_ranges() {
    let y2059 = four(2059);
    let y59 = two(59);
    let y1995 = four(1995);
    let y95 = two(95);

    assert!(!(y2059, y1995).is_proper());
    assert!((y1995, y2059).is_proper());
    assert!((y1995, y59).try_is_proper().is_none());
    assert!((y95, four(1959)).try_is_proper().is_none());
    assert!((y1995, y95).try_is_proper().is_none());
    assert!(!(y95, y59).is_proper());
    assert!((y95, y95).is_proper());
    assert!((y59, y95).is_proper());
    assert!((y59, y59).is_proper());

    assert_eq!((y2059, y1995).to_four_digit_range(), (y2059, y1995));
    assert_eq!((y1995, y2059).to_four_digit_range(), (y1995, y2059));
    assert_eq!((y1995, y59).to_four_digit_range(), (y1995, y2059));
    assert_eq!((y1995, y95).to_four_digit_range(), (y1995, y1995));
    assert_eq!((y95, y59).to_four_digit_range(), (y1995, y2059));
    assert_eq!((y95, y95).to_four_digit_range(), (y1995, y1995));
    assert_eq!((y59, y95).to_four_digit_range(), (y2059, four(2095)));

    assert_eq!((y59, two(39)).to_four_digit_range(), (four(1959), four(2039)));
    assert_eq!((y59, y59).to_four_digit_range(), (y2059, y2059));
}

#[test]
fn mixed_pair_rollover_needs_flag() {
    let pair = (four(1995), two(20));
    assert_eq!(pair.try_to_four_digit_range(YearRangeNormalization::default()), None);
    let rollover = YearRangeNormalization::default().allow_mixed_size_implied_century_rollover(true);
    assert_eq!(pair.try_to_four_digit_range(rollover), Some((four(1995), four(2020))));
    // No rollover needed: the end inherits the century of the beginning.
    assert_eq!(
        (four(1995), two(98)).try_to_four_digit_range(YearRangeNormalization::default()),
        Some((four(1995), four(1998)))
    );
    // The mirror image propagates backwards from the end.
    assert_eq!(
        (two(95), four(2003)).try_to_four_digit_range(rollover),
        Some((four(1995), four(2003)))
    );
    assert_eq!((two(95), four(2003)).try_to_four_digit_range(YearRangeNormalization::new()), None);
    assert_eq!(
        (two(1), four(2003)).try_to_four_digit_range(YearRangeNormalization::new()),
        Some((four(2001), four(2003)))
    );
}

#[test]
fn two_digit_pairs_need_their_flags() {
    let guess_only = YearRangeNormalization::new().allow_century_guess(true);
    let y2k = YearRangeNormalization::new().allow_assuming_y2k_span(true);
    assert_eq!((two(95), two(20)).try_to_four_digit_range(guess_only), None);
    assert_eq!((two(95), two(20)).try_to_four_digit_range(y2k), Some((four(1995), four(2020))));
    assert_eq!((two(10), two(20)).try_to_four_digit_range(y2k), None);
    assert_eq!((two(10), two(20)).try_to_four_digit_range(guess_only), Some((four(2010), four(2020))));
    assert!(guess_only.get_allow_century_guess());
    assert!(!guess_only.get_allow_assuming_y2k_span());
    assert!(y2k.get_allow_assuming_y2k_span());
    assert!(!y2k.get_allow_mixed_size_implied_century_rollover());
}

#[test]
fn four_digit_pairs_must_be_in_order() {
    let opts = YearRangeNormalization::new();
    assert_eq!((four(2022), four(1995)).try_to_four_digit_range(opts), None);
    assert_eq!((four(1995), four(2022)).try_to_four_digit_range(opts), Some((four(1995), four(2022))));
    let e = (YearExpr::new_four_digit(1995), YearExpr::new_two_digit(20));
    assert_eq!(e.begin(), YearExpr::new_four_digit(1995));
    assert_eq!(e.end(), YearExpr::new_two_digit(20));
    assert_eq!(e.try_to_four_digit_range(opts), None);
}
