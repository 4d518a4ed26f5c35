//! Paragraphs of Debian machine-readable copyright files (DEP5).

use vstd::prelude::*;
use crate::control_file::{
    with_field, ControlFileError, Field, MultilineField, Paragraph, ParagraphAccumulator,
    SingleLineField, SingleLineOrMultilineEmptyFirstLineField,
};

verus! {

/// The header paragraph of a copyright file.
#[derive(Debug, Clone)]
pub struct HeaderParagraph {
    pub format: SingleLineField,
    pub upstream_name: Option<SingleLineField>,
    pub upstream_contact: Option<SingleLineField>,
    pub source: Option<SingleLineField>,
    pub disclaimer: Option<SingleLineOrMultilineEmptyFirstLineField>,
    pub comment: Option<SingleLineOrMultilineEmptyFirstLineField>,
    pub license: Option<SingleLineOrMultilineEmptyFirstLineField>,
    pub copyright: Option<MultilineField>,
}

impl Default for HeaderParagraph {
    /// The format of version 1.0, and no other field.
    fn default() -> (r: HeaderParagraph)
        ensures
            r.format.0@ == "https://www.debian.org/doc/packaging-manuals/copyright-format/1.0/"@,
            r.upstream_name is None,
            r.upstream_contact is None,
            r.source is None,
            r.disclaimer is None,
            r.comment is None,
            r.license is None,
            r.copyright is None,
    {
        HeaderParagraph {
            format: SingleLineField(
                "https://www.debian.org/doc/packaging-manuals/copyright-format/1.0/".to_owned(),
            ),
            upstream_name: None,
            upstream_contact: None,
            source: None,
            disclaimer: None,
            comment: None,
            license: None,
            copyright: None,
        }
    }
}

impl Paragraph for HeaderParagraph {
    open spec fn field_texts(&self) -> Option<Seq<Seq<char>>> {
        if self.format.writable() && self.upstream_name.writable() && self.upstream_contact.writable()
            && self.source.writable() && self.disclaimer.writable() && self.comment.writable()
            && self.license.writable() && self.copyright.writable() {
            let l1 = with_field(seq![], self.format.text_for("Format"@));
            let l2 = with_field(l1, self.upstream_name.text_for("Upstream-Name"@));
            let l3 = with_field(l2, self.upstream_contact.text_for("Upstream-Contact"@));
            let l4 = with_field(l3, self.source.text_for("Source"@));
            let l5 = with_field(l4, self.disclaimer.text_for("Disclaimer"@));
            let l6 = with_field(l5, self.comment.text_for("Comment"@));
            let l7 = with_field(l6, self.license.text_for("License"@));
            Some(with_field(l7, self.copyright.text_for("Copyright"@)))
        } else {
            None
        }
    }

    fn try_to_string(&self) -> (r: Result<Option<String>, ControlFileError>) {
        let acc = ParagraphAccumulator::default();
        let acc = match acc.write("Format", &self.format) {
            Ok(a) => a,
            Err(e) => return Err(e),
        };
        let acc = match acc.write("Upstream-Name", &self.upstream_name) {
            Ok(a) => a,
            Err(e) => return Err(e),
        };
        let acc = match acc.write("Upstream-Contact", &self.upstream_contact) {
            Ok(a) => a,
            Err(e) => return Err(e),
        };
        let acc = match acc.write("Source", &self.source) {
            Ok(a) => a,
            Err(e) => return Err(e),
        };
        let acc = match acc.write("Disclaimer", &self.disclaimer) {
            Ok(a) => a,
            Err(e) => return Err(e),
        };
        let acc = match acc.write("Comment", &self.comment) {
            Ok(a) => a,
            Err(e) => return Err(e),
        };
        let acc = match acc.write("License", &self.license) {
            Ok(a) => a,
            Err(e) => return Err(e),
        };
        let acc = match acc.write("Copyright", &self.copyright) {
            Ok(a) => a,
            Err(e) => return Err(e),
        };
        Ok(Some(acc.to_string()))
    }
}

/// A files paragraph: which files, their copyright, their license.
#[derive(Debug, Clone)]
pub struct FilesParagraph {
    pub files: MultilineField,
    pub copyright: MultilineField,
    pub license: SingleLineOrMultilineEmptyFirstLineField,
    pub comment: Option<MultilineField>,
}

impl Paragraph for FilesParagraph {
    open spec fn field_texts(&self) -> Option<Seq<Seq<char>>> {
        let l1 = with_field(seq![], self.files.text_for("Files"@));
        let l2 = with_field(l1, self.copyright.text_for("Copyright"@));
        let l3 = with_field(l2, self.license.text_for("License"@));
        Some(with_field(l3, self.comment.text_for("Comment"@)))
    }

    fn try_to_string(&self) -> (r: Result<Option<String>, ControlFileError>) {
        let acc = ParagraphAccumulator::default();
        let acc = match acc.write("Files", &self.files) {
            Ok(a) => a,
            Err(e) => return Err(e),
        };
        let acc = match acc.write("Copyright", &self.copyright) {
            Ok(a) => a,
            Err(e) => return Err(e),
        };
        let acc = match acc.write("License", &self.license) {
            Ok(a) => a,
            Err(e) => return Err(e),
        };
        let acc = match acc.write("Comment", &self.comment) {
            Ok(a) => a,
            Err(e) => return Err(e),
        };
        Ok(Some(acc.to_string()))
    }
}

} // verus!
