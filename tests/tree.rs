use copyright_tree::copyright::Copyright;
use copyright_tree::raw_year::YearRangeNormalization;
use copyright_tree::tree::{CopyrightDataTree, FileRecord, Metadata};

fn record(path: &str, copyright: &str, license: &str) -> FileRecord {
    FileRecord {
        file_name: path.to_string(),
        copyright_text: Some(copyright.to_string()),
        license_information_in_file: vec![license.to_string()],
    }
}

fn files_of(tree: &CopyrightDataTree<Metadata>) -> Vec<String> {
    tree.make_paragraphs().into_iter().map(|p| p.files.0).collect()
}

#[test]
fn uniform_directory_becomes_one_wildcard() {
    let mut tree = CopyrightDataTree::<Metadata>::new_tree();
    for i in 0..10 {
        tree.accumulate(&record(&format!("./src/file{i}.c"), "Copyright 2024, A", "MIT"));
    }
    tree.accumulate(&record("./README.md", "Copyright 2020, B", "CC0-1.0"));
    tree.propagate_metadata();
    let paragraphs = tree.make_paragraphs();
    assert_eq!(paragraphs.len(), 2);
    assert_eq!(paragraphs[0].files.0, "src/*");
    assert_eq!(paragraphs[0].copyright.0, "2024, A");
    assert_eq!(paragraphs[0].license.0, "Expat");
    assert_eq!(paragraphs[1].files.0, "README.md");
}

#[test]
fn only_child_directory_promotes_to_root() {
    let mut tree = CopyrightDataTree::<Metadata>::new_tree();
    for i in 0..10 {
        tree.accumulate(&record(&format!("src/file{i}.c"), "Copyright 2024, A", "MIT"));
    }
    tree.propagate_metadata();
    assert_eq!(files_of(&tree), vec!["*".to_string()]);
}

#[test]
fn one_different_file_splits_the_directory() {
    let mut tree = CopyrightDataTree::<Metadata>::new_tree();
    for i in 0..9 {
        tree.accumulate(&record(&format!("src/lib/file{i}.c"), "Copyright 2024, A", "MIT"));
    }
    tree.accumulate(&record("src/main.c", "Copyright 2023, B", "MIT"));
    tree.accumulate(&record("other.txt", "Copyright 2024, A", "MIT"));
    tree.propagate_metadata();
    let files = files_of(&tree);
    assert!(files.len() >= 2);
    assert_eq!(files, vec!["src/lib/*".to_string(), "src/main.c".to_string(), "other.txt".to_string()]);
}

#[test]
fn unpromoted_files_are_listed_sorted() {
    let mut tree = CopyrightDataTree::<Metadata>::new_tree();
    tree.accumulate(&record("b file.c", "Copyright 2024, A", "MIT"));
    tree.accumulate(&record("a.c", "Copyright 2024, A", "MIT"));
    tree.accumulate(&record("c.c", "Copyright 2020, C", "Apache-2.0"));
    let paragraphs = tree.make_paragraphs();
    assert_eq!(paragraphs.len(), 2);
    assert_eq!(paragraphs[0].files.0, "a.c\nb?file.c");
    assert_eq!(paragraphs[1].files.0, "c.c");
    assert_eq!(paragraphs[1].license.0, "Apache-2.0");
}

#[test]
fn insertion_reuses_identities_and_nodes() {
    let mut tree = CopyrightDataTree::<Metadata>::new_tree();
    let (n1, id1) = tree.accumulate(&record("x/y.c", "Copyright 2024, A", "MIT"));
    let (n2, id2) = tree.accumulate(&record("x/z.c", "Copyright 2024, A", "MIT"));
    let (n3, id3) = tree.accumulate(&record("./x/y.c", "Copyright 2020, Q", "MIT"));
    assert_eq!(id1, id2);
    assert_ne!(id1, id3);
    assert_ne!(n1, n2);
    assert_eq!(n1, n3);
    assert_eq!(tree.get_metadata_id(n1), Some(id3));
    assert!(!tree.is_directory(n1));
}

#[test]
fn summarized_paragraphs_merge_years_per_holder() {
    let mut tree = CopyrightDataTree::<Metadata>::new_tree();
    tree.accumulate(&record(
        "a.c",
        "Copyright 2019, A\nCopyright 2018, A\nCopyright 2021, B\nCopyright 2020, A",
        "MIT",
    ));
    let opts = YearRangeNormalization::default();
    let paragraphs = tree.make_summarized_paragraphs(opts);
    assert_eq!(paragraphs.len(), 1);
    assert_eq!(paragraphs[0].copyright.0, "2018-2020, A\n2021, B");
    let plain = tree.make_paragraphs();
    assert_eq!(plain[0].copyright.0, "2018, A\n2019, A\n2020, A\n2021, B");
}

#[test]
fn resummarize_keeps_opaque_text() {
    let opts = YearRangeNormalization::default();
    let c = Copyright::try_parse(opts, "Some opaque text").unwrap();
    assert_eq!(c.resummarize(), c);
    let d = Copyright::try_parse(opts, "2020, X\n2018-2019, X\n2022, X").unwrap();
    assert_eq!(d.resummarize().to_text(), "2018-2020, 2022, X");
}

#[test]
fn one_changed_file_among_ten_siblings() {
    let mut tree = CopyrightDataTree::<Metadata>::new_tree();
    for i in 0..9 {
        tree.accumulate(&record(&format!("./src/f{i}"), "Copyright 2024, A", "MIT"));
    }
    tree.accumulate(&record("./src/f9", "Copyright 2024, A", "Apache-2.0"));
    tree.propagate_metadata();
    let paragraphs = tree.make_paragraphs();
    assert_eq!(paragraphs.len(), 2);
    let expected: Vec<String> = (0..9).map(|i| format!("src/f{i}")).collect();
    assert_eq!(paragraphs[0].files.0, expected.join("\n"));
    assert_eq!(paragraphs[0].license.0, "Expat");
    assert_eq!(paragraphs[1].files.0, "src/f9");
    assert_eq!(paragraphs[1].license.0, "Apache-2.0");
}

#[test]
fn second_promotion_pass_changes_nothing() {
    let mut tree = CopyrightDataTree::<Metadata>::new_tree();
    for i in 0..3 {
        tree.accumulate(&record(&format!("a/b/f{i}"), "Copyright 2024, A", "MIT"));
    }
    tree.accumulate(&record("a/c", "Copyright 2020, B", "MIT"));
    assert_eq!(tree.metadata_count(), 2);
    tree.propagate_metadata();
    let once: Vec<String> = tree.make_paragraphs().into_iter().map(|p| p.files.0).collect();
    tree.propagate_metadata();
    let twice: Vec<String> = tree.make_paragraphs().into_iter().map(|p| p.files.0).collect();
    assert_eq!(once, vec!["a/b/*".to_string(), "a/c".to_string()]);
    assert_eq!(once, twice);
}
