use copyright_tree::dep5::HeaderParagraph;
use copyright_tree::license::{license_field_of, license_field_text, license_term_text};
use copyright_tree::raw_year::YearRangeNormalization;
use copyright_tree::selection::{copyright_file_text, filter_files, is_copyright_text_empty, omit_or_normalize_none};
use copyright_tree::tree::{CopyrightDataTree, FileRecord, Metadata};
use copyright_tree::years::{Year, YearRange, YearSpec};
use std::cmp::Ordering;

fn record(path: &str, copyright: Option<&str>) -> FileRecord {
    FileRecord {
        file_name: path.to_string(),
        copyright_text: copyright.map(|c| c.to_string()),
        license_information_in_file: vec!["MIT".to_string()],
    }
}

#[test]
fn none_marker_is_omitted_or_normalized() {
    let files = vec![record("a.c", Some("NONE")), record("b.c", None), record("c.c", Some("2020, X"))];
    assert!(is_copyright_text_empty(&files[0]));
    assert!(!is_copyright_text_empty(&files[2]));
    let kept = omit_or_normalize_none(files.clone(), true);
    assert_eq!(kept.len(), 1);
    assert_eq!(kept[0].file_name, "c.c");
    let normalized = omit_or_normalize_none(files, false);
    assert_eq!(normalized.len(), 3);
    assert_eq!(normalized[0].copyright_text, None);
    assert_eq!(normalized[2].copyright_text, Some("2020, X".to_string()));
}

#[test]
fn extension_filters() {
    let files = vec![record("a.c", None), record("b.h", None), record("c.txt", None)];
    let excluded = filter_files(files.clone(), &vec![".txt".to_string()], &vec![]);
    assert_eq!(excluded.iter().map(|f| f.file_name.as_str()).collect::<Vec<_>>(), vec!["a.c", "b.h"]);
    let wanted = filter_files(files.clone(), &vec![], &vec![".h".to_string(), ".txt".to_string()]);
    assert_eq!(wanted.iter().map(|f| f.file_name.as_str()).collect::<Vec<_>>(), vec!["b.h", "c.txt"]);
    assert_eq!(filter_files(files, &vec![], &vec![]).len(), 3);
}

#[test]
fn whole_file_sorts_paragraphs_after_header() {
    let mut tree = CopyrightDataTree::<Metadata>::new_tree();
    tree.accumulate(&record("z.c", Some("Copyright 2020, Z")));
    tree.accumulate(&record("a.c", Some("Copyright 2021, A")));
    let text = copyright_file_text(&HeaderParagraph::default(), &tree.make_paragraphs());
    assert_eq!(
        text,
        "Format: https://www.debian.org/doc/packaging-manuals/copyright-format/1.0/\n\n\
Files: a.c\nCopyright: 2021, A\nLicense: Expat\n\n\
Files: z.c\nCopyright: 2020, Z\nLicense: Expat"
    );
}

#[test]
fn spdx_rendering_normalizes_spacing() {
    assert_eq!(
        license_field_text(&vec!["MIT  OR  Apache-2.0".to_string()]),
        "(Expat OR Apache-2.0)"
    );
    assert_eq!(license_field_of("x", None), "x");
    assert_eq!(license_field_of("x", Some("MIT".to_string())), "Expat");
    assert_eq!(license_term_text("MIT", Some(1)), vec!['M', 'I', 'T']);
    assert_eq!(license_term_text("A OR B", Some(2)).into_iter().collect::<String>(), "(A OR B)");
}

#[test]
fn decomposition_keeps_identities() {
    let mut tree = CopyrightDataTree::<Metadata>::new_tree();
    let (n1, id1) = tree.accumulate(&record("a.c", Some("Copyright 2020, X")));
    let (n2, id2) = tree.accumulate(&record("b.c", Some("Copyright 2021, Y")));
    let opts = YearRangeNormalization::default();
    assert_eq!(tree.decomposition_collision(opts), None);
    let parsed = tree.perform_copyright_decomposition(opts);
    assert_eq!(parsed.get_metadata_id(n1), Some(id1));
    assert_eq!(parsed.get_metadata_id(n2), Some(id2));
    assert_ne!(id1, id2);
}

#[test]
fn decomposition_rejects_collisions() {
    let mut tree = CopyrightDataTree::<Metadata>::new_tree();
    tree.accumulate(&record("a.c", Some("2020, X")));
    tree.accumulate(&record("b.c", Some("2020,  X")));
    assert_eq!(tree.decomposition_collision(YearRangeNormalization::default()), Some((0, 1)));
}

#[test]
fn year_spec_partial_order() {
    let single = YearSpec::single(2020);
    let same_start = YearSpec::range(Year(2020), Year(2022));
    let later = YearSpec::range(Year(2021), Year(2022));
    let one_year_range = YearSpec::range(Year(2020), Year(2020));
    assert_eq!(single.partial_cmp(&same_start), None);
    assert_eq!(same_start.partial_cmp(&single), None);
    assert_eq!(single.partial_cmp(&later), Some(Ordering::Less));
    assert_eq!(later.partial_cmp(&single), Some(Ordering::Greater));
    assert_eq!(single.partial_cmp(&one_year_range), Some(Ordering::Equal));
    assert_eq!(same_start.partial_cmp(&later), Some(Ordering::Less));
    assert_eq!(YearSpec::single(2019).partial_cmp(&single), Some(Ordering::Less));
}

#[test]
fn ranges_from_years_and_specs() {
    assert_eq!(YearRange::from(Year(2020)), YearRange::new(Year(2020), Year(2020)));
    assert_eq!(YearRange::from(YearSpec::single(2021)), YearRange::new(Year(2021), Year(2021)));
    assert_eq!(
        YearRange::from(YearSpec::range(Year(2018), Year(2020))),
        YearRange::new(Year(2018), Year(2020))
    );
}
