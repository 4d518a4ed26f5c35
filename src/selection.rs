//! Choosing which file records enter the tree, and writing the whole
//! copyright file.

use vstd::prelude::*;
use crate::control_file::Paragraph;
use crate::dep5::{FilesParagraph, HeaderParagraph};
use crate::text::{chars_of, join_texts, join_with, sort_texts, sorted_texts, string_of, views_of_texts};
use crate::tree::FileRecord;

verus! {

/// The text that marks a file with no copyright.
pub open spec fn none_marker() -> Seq<char> {
    "NONE"@
}

/// A record without copyright text: none at all, or the marker "NONE".
pub open spec fn no_copyright(f: FileRecord) -> bool {
    match f.copyright_text {
        None => true,
        Some(t) => t@ == none_marker(),
    }
}

/// Does the record carry no copyright text?
pub fn is_copyright_text_empty(fi: &FileRecord) -> (r: bool)
    ensures
        r == no_copyright(*fi),
{
    match &fi.copyright_text {
        None => true,
        Some(v) => crate::text::same_text(v.as_str(), "NONE"),
    }
}

/// The records that carry copyright text, in order.
pub open spec fn with_copyright(fs: Seq<FileRecord>) -> Seq<FileRecord>
    decreases fs.len(),
{
    if fs.len() == 0 {
        fs
    } else if no_copyright(fs.last()) {
        with_copyright(fs.drop_last())
    } else {
        with_copyright(fs.drop_last()).push(fs.last())
    }
}

/// The record with the marker "NONE" turned into no text at all.
pub open spec fn normalized(f: FileRecord) -> FileRecord {
    if no_copyright(f) {
        FileRecord { copyright_text: None, ..f }
    } else {
        f
    }
}

/// Drop the records without copyright text.
pub fn omit_no_copyright(file_info: Vec<FileRecord>) -> (r: Vec<FileRecord>)
    ensures
        r@ == with_copyright(file_info@),
{
    let mut out: Vec<FileRecord> = Vec::new();
    let mut rest = file_info;
    let ghost all = rest@;
    let n = rest.len();
    let mut i: usize = 0;
    assert(all.take(0) =~= Seq::<FileRecord>::empty());
    while rest.len() > 0
        invariant
            i <= all.len(),
            n == all.len(),
            rest@ == all.skip(i as int),
            out@ == with_copyright(all.take(i as int)),
        decreases rest@.len(),
    {
        let f = rest.remove(0);
        proof {
            assert(rest@ =~= all.skip(i + 1));
            assert(all.take(i + 1).drop_last() =~= all.take(i as int));
            assert(f == all[i as int]);
        }
        if !is_copyright_text_empty(&f) {
            out.push(f);
        }
        i += 1;
    }
    assert(all.take(i as int) =~= all);
    out
}

/// Turn the marker "NONE" into no copyright text at all.
pub fn normalize_no_copyright(file_info: Vec<FileRecord>) -> (r: Vec<FileRecord>)
    ensures
        r@ == file_info@.map_values(|f: FileRecord| normalized(f)),
{
    let mut out: Vec<FileRecord> = Vec::new();
    let mut rest = file_info;
    let ghost all = rest@;
    let n = rest.len();
    let mut i: usize = 0;
    while rest.len() > 0
        invariant
            i <= all.len(),
            n == all.len(),
            rest@ == all.skip(i as int),
            out@ == all.take(i as int).map_values(|f: FileRecord| normalized(f)),
        decreases rest@.len(),
    {
        let f = rest.remove(0);
        proof {
            assert(rest@ =~= all.skip(i + 1));
            assert(f == all[i as int]);
        }
        let g = if is_copyright_text_empty(&f) {
            FileRecord { copyright_text: None, ..f }
        } else {
            f
        };
        out.push(g);
        assert(out@ =~= all.take(i + 1).map_values(|f: FileRecord| normalized(f)));
        i += 1;
    }
    assert(all.take(i as int) =~= all);
    out
}

/// Omit the records without copyright text, or else normalize their marker.
pub fn omit_or_normalize_none(file_info: Vec<FileRecord>, omit_missing_copyright: bool) -> (r: Vec<
    FileRecord,
>)
    ensures
        r@ == if omit_missing_copyright {
            with_copyright(file_info@)
        } else {
            file_info@.map_values(|f: FileRecord| normalized(f))
        },
{
    if omit_missing_copyright {
        omit_no_copyright(file_info)
    } else {
        normalize_no_copyright(file_info)
    }
}

/// `s` ends with `suffix`.
pub open spec fn ends_with(s: Seq<char>, suffix: Seq<char>) -> bool {
    suffix.len() <= s.len() && s.skip(s.len() - suffix.len()) == suffix
}

/// The name ends with one of the extensions.
pub open spec fn has_extension(name: Seq<char>, exts: Seq<Seq<char>>) -> bool {
    exists|k: int| 0 <= k < exts.len() && ends_with(name, #[trigger] exts[k])
}

/// Whether a record passes the filters: where `exclude` is given, it must
/// end with none of them; else where `wanted` is given, with one of them.
pub open spec fn selected(f: FileRecord, exclude: Seq<Seq<char>>, wanted: Seq<Seq<char>>) -> bool {
    if exclude.len() > 0 {
        !has_extension(f.file_name@, exclude)
    } else if wanted.len() > 0 {
        has_extension(f.file_name@, wanted)
    } else {
        true
    }
}

/// The records that pass the filters, in order.
pub open spec fn selected_records(
    fs: Seq<FileRecord>,
    exclude: Seq<Seq<char>>,
    wanted: Seq<Seq<char>>,
) -> Seq<FileRecord>
    decreases fs.len(),
{
    if fs.len() == 0 {
        fs
    } else if selected(fs.last(), exclude, wanted) {
        selected_records(fs.drop_last(), exclude, wanted).push(fs.last())
    } else {
        selected_records(fs.drop_last(), exclude, wanted)
    }
}

fn ends_with_chars(s: &Vec<char>, suffix: &Vec<char>) -> (r: bool)
    ensures
        r == ends_with(s@, suffix@),
{
    if suffix.len() > s.len() {
        return false;
    }
    let start = s.len() - suffix.len();
    let mut k: usize = 0;
    while k < suffix.len()
        invariant
            start + suffix@.len() == s@.len() <= usize::MAX,
            k <= suffix@.len(),
            forall|m: int| 0 <= m < k ==> s@[start + m] == suffix@[m],
        decreases suffix@.len() - k,
    {
        if s[start + k] != suffix[k] {
            assert(s@.skip(start as int)[k as int] != suffix@[k as int]);
            return false;
        }
        k += 1;
    }
    assert(s@.skip(start as int) =~= suffix@);
    true
}

fn any_extension(name: &Vec<char>, exts: &Vec<String>) -> (r: bool)
    ensures
        r == has_extension(name@, exts@.map_values(|e: String| e@)),
{
    let ghost es = exts@.map_values(|e: String| e@);
    let mut k: usize = 0;
    while k < exts.len()
        invariant
            k <= exts@.len(),
            es == exts@.map_values(|e: String| e@),
            forall|m: int| 0 <= m < k ==> !ends_with(name@, #[trigger] es[m]),
        decreases exts@.len() - k,
    {
        let e = chars_of(exts[k].as_str());
        if ends_with_chars(name, &e) {
            assert(es[k as int] == e@);
            return true;
        }
        k += 1;
    }
    false
}

/// Keep the records that pass the extension filters (at most one of
/// `exclude` and `wanted` is meant to be non-empty; `exclude` wins).
pub fn filter_files(files: Vec<FileRecord>, exclude: &Vec<String>, wanted: &Vec<String>) -> (r: Vec<
    FileRecord,
>)
    ensures
        r@ == selected_records(
            files@,
            exclude@.map_values(|e: String| e@),
            wanted@.map_values(|e: String| e@),
        ),
{
    let ghost ex = exclude@.map_values(|e: String| e@);
    let ghost want = wanted@.map_values(|e: String| e@);
    let mut out: Vec<FileRecord> = Vec::new();
    let mut rest = files;
    let ghost all = rest@;
    let n = rest.len();
    let mut i: usize = 0;
    assert(all.take(0) =~= Seq::<FileRecord>::empty());
    while rest.len() > 0
        invariant
            i <= all.len(),
            n == all.len(),
            rest@ == all.skip(i as int),
            ex == exclude@.map_values(|e: String| e@),
            want == wanted@.map_values(|e: String| e@),
            out@ == selected_records(all.take(i as int), ex, want),
        decreases rest@.len(),
    {
        let f = rest.remove(0);
        proof {
            assert(rest@ =~= all.skip(i + 1));
            assert(all.take(i + 1).drop_last() =~= all.take(i as int));
            assert(f == all[i as int]);
        }
        let name = chars_of(f.file_name.as_str());
        let keep = if exclude.len() > 0 {
            !any_extension(&name, exclude)
        } else if wanted.len() > 0 {
            any_extension(&name, wanted)
        } else {
            true
        };
        if keep {
            out.push(f);
        }
        i += 1;
    }
    assert(all.take(i as int) =~= all);
    out
}

/// The text of each paragraph, where every paragraph can be written.
pub open spec fn paragraph_texts(ps: Seq<FilesParagraph>) -> Seq<Seq<char>> {
    ps.map_values(|p: FilesParagraph| join_with(p.field_texts()->0, seq!['\n']))
}

pub open spec fn all_writable(ps: Seq<FilesParagraph>) -> bool {
    forall|k: int| 0 <= k < ps.len() ==> (#[trigger] ps[k]).field_texts() is Some
}

/// The whole copyright file: the header, then the texts of the paragraphs
/// in ascending order, with an empty line between two paragraphs.
pub fn copyright_file_text(header: &HeaderParagraph, paragraphs: &Vec<FilesParagraph>) -> (r: String)
    ensures
        header.field_texts() is Some && all_writable(paragraphs@) ==> r@ == join_with(
            seq![join_with(header.field_texts()->0, seq!['\n'])] + sorted_texts(
                paragraph_texts(paragraphs@),
            ),
            seq!['\n', '\n'],
        ),
{
    let ghost ok = all_writable(paragraphs@);
    let mut texts: Vec<Vec<char>> = Vec::new();
    let mut i: usize = 0;
    while i < paragraphs.len()
        invariant
            i <= paragraphs@.len(),
            ok == all_writable(paragraphs@),
            ok ==> views_of_texts(texts@) == paragraph_texts(paragraphs@.take(i as int)),
        decreases paragraphs@.len() - i,
    {
        let ghost before = texts@;
        match paragraphs[i].try_to_string() {
            Ok(Some(t)) => {
                let c = chars_of(t.as_str());
                texts.push(c);
                proof {
                    if ok {
                        assert(views_of_texts(texts@) =~= views_of_texts(before).push(c@));
                        assert(paragraphs@.take(i + 1) =~= paragraphs@.take(i as int).push(paragraphs@[i as int]));
                        assert(paragraph_texts(paragraphs@.take(i + 1)) =~= paragraph_texts(
                            paragraphs@.take(i as int),
                        ).push(c@));
                    }
                }
            },
            _ => {
                assert(!ok);
            },
        }
        i += 1;
    }
    assert(paragraphs@.take(paragraphs@.len() as int) =~= paragraphs@);
    let sorted = sort_texts(texts);
    let mut all: Vec<Vec<char>> = Vec::new();
    let head = match header.try_to_string() {
        Ok(Some(t)) => Some(chars_of(t.as_str())),
        _ => None,
    };
    match head {
        Some(h) => all.push(h),
        None => {},
    }
    let ghost first = all@;
    let mut j: usize = 0;
    while j < sorted.len()
        invariant
            j <= sorted@.len(),
            views_of_texts(all@) == views_of_texts(first) + views_of_texts(sorted@).take(j as int),
        decreases sorted@.len() - j,
    {
        let x = crate::text::slice_of(&sorted[j], 0, sorted[j].len());
        assert(x@ =~= sorted@[j as int]@);
        let ghost before = all@;
        all.push(x);
        proof {
            assert(views_of_texts(all@) =~= views_of_texts(before).push(x@));
            assert(views_of_texts(sorted@).take(j + 1) =~= views_of_texts(sorted@).take(j as int).push(
                sorted@[j as int]@,
            ));
        }
        j += 1;
    }
    assert(views_of_texts(sorted@).take(sorted@.len() as int) =~= views_of_texts(sorted@));
    let sep: Vec<char> = vec!['\n', '\n'];
    assert(sep@ =~= seq!['\n', '\n']);
    let r = string_of(join_texts(&all, &sep).as_slice());
    proof {
        if header.field_texts() is Some && ok {
            assert(views_of_texts(first) =~= seq![join_with(header.field_texts()->0, seq!['\n'])]);
        }
    }
    r
}

} // verus!
