use copyright_tree::cleanup::{cleanup_copyright_text, licenses_debian_to_spdx, licenses_spdx_to_debian};
use copyright_tree::control_file::{
    format_field, format_field_first_line, ControlFileError, Field, MultilineEmptyFirstLineField,
    MultilineField, Paragraph, ParagraphAccumulator, Paragraphs, SingleLineField,
    SingleLineOrMultilineEmptyFirstLineField,
};
use copyright_tree::dep5::{FilesParagraph, HeaderParagraph};
use copyright_tree::license::license_field_text;

#[test]
fn first_line_formats() {
    assert_eq!(format_field_first_line(" Files ", Some(" a.c ")).unwrap(), "Files: a.c");
    assert_eq!(format_field_first_line("Copyright", None).unwrap(), "Copyright:");
}

#[test]
fn multiline_fields() {
    let lines = vec!["first".to_string(), "".to_string(), "third  ".to_string()];
    assert_eq!(
        format_field("License", Some("MIT"), Some(&lines)).unwrap(),
        "License: MIT\n  first\n  .\n  third"
    );
    assert_eq!(
        MultilineField("a\nb".to_string()).try_to_string("Files").unwrap(),
        Some("Files: a\n  b".to_string())
    );
    assert_eq!(
        MultilineEmptyFirstLineField("a\nb".to_string()).try_to_string("License").unwrap(),
        Some("License:\n  a\n  b".to_string())
    );
    assert_eq!(
        SingleLineOrMultilineEmptyFirstLineField("MIT".to_string()).try_to_string("License").unwrap(),
        Some("License: MIT".to_string())
    );
    assert_eq!(
        SingleLineOrMultilineEmptyFirstLineField("MIT\ntext".to_string())
            .try_to_string("License")
            .unwrap(),
        Some("License:\n  MIT\n  text".to_string())
    );
}

#[test]
fn single_line_field_rejects_newline() {
    match SingleLineField("a\nb".to_string()).try_to_string("Source") {
        Err(ControlFileError::UnexpectedNewline(name)) => assert_eq!(name, "Source"),
        other => panic!("unexpected {other:?}"),
    }
    let missing: Option<SingleLineField> = None;
    assert_eq!(missing.try_to_string("Source").unwrap(), None);
}

#[test]
fn paragraphs_join_fields() {
    let acc = ParagraphAccumulator::default()
        .write("Format", &SingleLineField("x".to_string()))
        .unwrap()
        .write("Comment", &None::<MultilineField>)
        .unwrap();
    assert_eq!(acc.to_string(), "Format: x");
    let files = FilesParagraph {
        files: MultilineField("src/*".to_string()),
        copyright: MultilineField("2024, A".to_string()),
        license: SingleLineOrMultilineEmptyFirstLineField("Expat".to_string()),
        comment: None,
    };
    assert_eq!(
        files.try_to_string().unwrap(),
        Some("Files: src/*\nCopyright: 2024, A\nLicense: Expat".to_string())
    );
    let header = HeaderParagraph::default();
    assert_eq!(
        header.try_to_string().unwrap(),
        Some("Format: https://www.debian.org/doc/packaging-manuals/copyright-format/1.0/".to_string())
    );
    assert_eq!(vec![files].flatten_to_strings().len(), 1);
}

#[test]
fn license_names() {
    assert_eq!(licenses_spdx_to_debian("MIT OR BSD-3-Clause"), "Expat OR BSD-3-clause");
    assert_eq!(licenses_debian_to_spdx("Expat OR BSD-3-clause"), "MIT OR BSD-3-Clause");
}

#[test]
fn license_field_combines_expressions() {
    assert_eq!(license_field_text(&vec!["MIT".to_string()]), "Expat");
    assert_eq!(
        license_field_text(&vec!["MIT".to_string(), "Apache-2.0 AND BSD-3-Clause".to_string()]),
        "Expat OR (Apache-2.0 AND BSD-3-clause)"
    );
}

#[test]
fn cleanup_strips_decoration_sorts_and_dedups() {
    let text = Some(
        "SPDX-FileCopyrightText: 2021 B\nCopyright (c) 2020 A,\n\n2021 B\nCopyright: 2019 C SPDX-License-Identifier: MIT"
            .to_string(),
    );
    assert_eq!(cleanup_copyright_text(&text), vec!["2019 C ", "2020 A", "2021 B"]);
    assert!(cleanup_copyright_text(&None).is_empty());
}

#[test]
fn fields_from_required_values() {
    assert_eq!(SingleLineField::try_from_value(&Some("x".to_string())).unwrap().0, "x");
    assert!(matches!(SingleLineField::try_from_value(&None), Err(ControlFileError::NoValueAnon)));
    let lines = vec!["a".to_string(), "b".to_string()];
    assert_eq!(MultilineEmptyFirstLineField::try_from_lines(&lines).unwrap().0, "a\nb");
    assert!(matches!(
        MultilineEmptyFirstLineField::try_from_lines(&vec![]),
        Err(ControlFileError::NoValueAnon)
    ));
}

#[test]
fn dangling_document_ref_is_not_parsed() {
    assert_eq!(license_field_text(&vec!["DocumentRef-x".to_string()]), "(DocumentRef-x)");
    assert_eq!(
        license_field_text(&vec!["MIT OR DocumentRef-x".to_string()]),
        "(Expat OR DocumentRef-x)"
    );
    assert_eq!(
        license_field_text(&vec!["DocumentRef-spdx-tool-1.2:LicenseRef-MIT-Style-2".to_string()]),
        "DocumentRef-spdx-tool-1.2:LicenseRef-Expat-Style-2"
    );
}

#[test]
fn continuation_lines_lose_trailing_unicode_white_space() {
    let lines = vec!["text\u{2003}\u{a0}".to_string()];
    assert_eq!(format_field("Comment", None, Some(&lines)).unwrap(), "Comment:\n  text");
}
