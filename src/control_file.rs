//! Writing the fields and paragraphs of Debian control files (deb822).

use vstd::prelude::*;
use crate::text::{
    chars_of, has_char, join_texts, join_with, push_all, split_chars, split_on, string_of, trim,
    trim_end, trimmed, trimmed_end, views_of_texts,
};

verus! {

/// Why a field could not be written.
#[derive(Debug, Clone)]
pub enum ControlFileError {
    /// A single-line field held a line break; the name of the field.
    UnexpectedNewline(String),
    /// A required field had no value; the name of the field.
    NoValue(String),
    /// A required field had no value.
    NoValueAnon,
}

/// The first line of a field: the trimmed name, a colon, and the trimmed
/// value after a space, if there is a value on that line.
pub open spec fn first_line(name: Seq<char>, value: Option<Seq<char>>) -> Seq<char> {
    match value {
        Some(v) => trimmed(name) + seq![':', ' '] + trimmed(v),
        None => trimmed(name) + seq![':'],
    }
}

/// A line after the first: indented by two spaces, trailing white space
/// removed, and a lone "." for an empty line.
pub open spec fn continuation_line(line: Seq<char>) -> Seq<char> {
    seq![' ', ' '] + if line.len() == 0 {
        seq!['.']
    } else {
        trimmed_end(line)
    }
}

/// A whole field: the first line, then each further line, one per line.
pub open spec fn field_text(
    name: Seq<char>,
    value: Option<Seq<char>>,
    rest: Option<Seq<Seq<char>>>,
) -> Seq<char> {
    match rest {
        Some(ls) => join_with(
            seq![first_line(name, value)] + ls.map_values(|l: Seq<char>| continuation_line(l)),
            seq!['\n'],
        ),
        None => first_line(name, value),
    }
}

pub open spec fn lines_opt(v: Option<&Vec<String>>) -> Option<Seq<Seq<char>>> {
    match v {
        Some(ls) => Some(ls@.map_values(|l: String| l@)),
        None => None,
    }
}

pub open spec fn str_opt(v: Option<&str>) -> Option<Seq<char>> {
    match v {
        Some(s) => Some(s@),
        None => None,
    }
}

fn first_line_chars(field_name: &str, single_line_value: Option<&str>) -> (r: Vec<char>)
    ensures
        r@ == first_line(field_name@, str_opt(single_line_value)),
{
    let mut out = chars_of(trim(field_name));
    out.push(':');
    match single_line_value {
        Some(v) => {
            out.push(' ');
            let value = chars_of(trim(v));
            push_all(&mut out, &value);
        },
        None => {},
    }
    out
}

/// Format the first line of a field: the name and an optional single-line value.
pub fn format_field_first_line(field_name: &str, single_line_value: Option<&str>) -> (r: Result<
    String,
    ControlFileError,
>)
    ensures
        r matches Ok(t) && t@ == first_line(field_name@, str_opt(single_line_value)),
{
    let line = first_line_chars(field_name, single_line_value);
    Ok(string_of(line.as_slice()))
}

fn continuation_chars(line: &String) -> (r: Vec<char>)
    ensures
        r@ == continuation_line(line@),
{
    let mut out: Vec<char> = vec![' ', ' '];
    let text = chars_of(line.as_str());
    if text.len() == 0 {
        out.push('.');
    } else {
        let rest = chars_of(trim_end(line.as_str()));
        push_all(&mut out, &rest);
    }
    out
}

/// Format a field: the name, an optional value on the first line, and
/// optional further lines.
pub fn format_field(
    field_name: &str,
    single_line_value: Option<&str>,
    subsequent_lines: Option<&Vec<String>>,
) -> (r: Result<String, ControlFileError>)
    ensures
        r matches Ok(t) && t@ == field_text(
            field_name@,
            str_opt(single_line_value),
            lines_opt(subsequent_lines),
        ),
{
    let first = first_line_chars(field_name, single_line_value);
    match subsequent_lines {
        None => {
            let t = string_of(first.as_slice());
            assert(lines_opt(subsequent_lines) is None);
            assert(t@ == field_text(field_name@, str_opt(single_line_value), None));
            Ok(t)
        },
        Some(lines) => {
            let ghost ls = lines@.map_values(|l: String| l@);
            let mut all: Vec<Vec<char>> = Vec::new();
            all.push(first);
            let mut i: usize = 0;
            while i < lines.len()
                invariant
                    i <= lines@.len(),
                    ls == lines@.map_values(|l: String| l@),
                    views_of_texts(all@) == seq![first_line(field_name@, str_opt(single_line_value))]
                        + ls.take(i as int).map_values(|l: Seq<char>| continuation_line(l)),
                decreases lines@.len() - i,
            {
                let c = continuation_chars(&lines[i]);
                proof {
                    assert(ls.take(i + 1) =~= ls.take(i as int).push(ls[i as int]));
                    assert(ls.take(i + 1).map_values(|l: Seq<char>| continuation_line(l)) =~= ls.take(
                        i as int,
                    ).map_values(|l: Seq<char>| continuation_line(l)).push(continuation_line(ls[i as int])));
                }
                let ghost before = all@;
                all.push(c);
                assert(views_of_texts(all@) =~= views_of_texts(before).push(c@));
                i += 1;
            }
            assert(ls.take(lines@.len() as int) =~= ls);
            let sep: Vec<char> = vec!['\n'];
            assert(sep@ =~= seq!['\n']);
            let joined = join_texts(&all, &sep);
            Ok(string_of(joined.as_slice()))
        },
    }
}

/// The lines of `s`, cut at each line feed, as strings.
fn lines_of_text(s: &String) -> (r: Vec<String>)
    ensures
        r@.map_values(|l: String| l@) == split_on(s@, '\n'),
{
    let chars = chars_of(s.as_str());
    let pieces = split_chars(&chars, '\n');
    crate::text::strings_of(&pieces)
}

/// A field of a control file.
pub trait Field {
    /// The field can be written (a single-line field holds no line break).
    spec fn writable(&self) -> bool;

    /// The text of the field under the name `name`; nothing where the field
    /// is left out.
    spec fn text_for(&self, name: Seq<char>) -> Option<Seq<char>>;

    /// The field as text, with no trailing line break.
    fn try_to_string(&self, field_name: &str) -> (r: Result<Option<String>, ControlFileError>)
        ensures
            match r {
                Ok(Some(t)) => self.writable() && self.text_for(field_name@) == Some(t@),
                Ok(None) => self.writable() && self.text_for(field_name@) is None,
                Err(ControlFileError::UnexpectedNewline(n)) => !self.writable() && n@ == field_name@,
                Err(_) => false,
            },
    ;
}

/// A single-line field: name and value on the same line.
#[derive(Debug, Clone)]
pub struct SingleLineField(pub String);

/// A multi-line field that starts on the line of its name.
#[derive(Debug, Clone)]
pub struct MultilineField(pub String);

/// A multi-line field that starts on the line after its name.
#[derive(Debug, Clone)]
pub struct MultilineEmptyFirstLineField(pub String);

/// A field on the line of its name if it is a single line, else starting
/// on the line after its name.
#[derive(Debug, Clone)]
pub struct SingleLineOrMultilineEmptyFirstLineField(pub String);

impl SingleLineField {
    /// The field of a value that must be present.
    pub fn try_from_value(value: &Option<String>) -> (r: Result<SingleLineField, ControlFileError>)
        ensures
            match value {
                Some(v) => r matches Ok(f) && f.0@ == v@,
                None => r matches Err(ControlFileError::NoValueAnon),
            },
    {
        match value {
            Some(v) => Ok(SingleLineField(v.clone())),
            None => Err(ControlFileError::NoValueAnon),
        }
    }
}

impl MultilineEmptyFirstLineField {
    /// The field of one or more lines, joined with line breaks.
    pub fn try_from_lines(value: &Vec<String>) -> (r: Result<MultilineEmptyFirstLineField, ControlFileError>)
        ensures
            value@.len() == 0 ==> r matches Err(ControlFileError::NoValueAnon),
            value@.len() > 0 ==> (r matches Ok(f) && f.0@ == join_with(
                value@.map_values(|l: String| l@),
                seq!['\n'],
            )),
    {
        if value.len() == 0 {
            return Err(ControlFileError::NoValueAnon);
        }
        let ghost ls = value@.map_values(|l: String| l@);
        let mut texts: Vec<Vec<char>> = Vec::new();
        let mut i: usize = 0;
        while i < value.len()
            invariant
                i <= value@.len(),
                ls == value@.map_values(|l: String| l@),
                views_of_texts(texts@) == ls.take(i as int),
            decreases value@.len() - i,
        {
            let t = chars_of(value[i].as_str());
            let ghost before = texts@;
            texts.push(t);
            proof {
                assert(views_of_texts(texts@) =~= views_of_texts(before).push(t@));
                assert(ls.take(i + 1) =~= ls.take(i as int).push(ls[i as int]));
            }
            i += 1;
        }
        assert(ls.take(value@.len() as int) =~= ls);
        let sep: Vec<char> = vec!['\n'];
        assert(sep@ =~= seq!['\n']);
        Ok(MultilineEmptyFirstLineField(string_of(join_texts(&texts, &sep).as_slice())))
    }
}

impl Field for SingleLineField {
    open spec fn writable(&self) -> bool {
        !self.0@.contains('\n')
    }

    open spec fn text_for(&self, name: Seq<char>) -> Option<Seq<char>> {
        Some(first_line(name, Some(self.0@)))
    }

    fn try_to_string(&self, field_name: &str) -> (r: Result<Option<String>, ControlFileError>) {
        let chars = chars_of(self.0.as_str());
        if has_char(&chars, '\n') {
            return Err(ControlFileError::UnexpectedNewline(field_name.to_owned()));
        }
        match format_field_first_line(field_name, Some(self.0.as_str())) {
            Ok(t) => Ok(Some(t)),
            Err(e) => Err(e),
        }
    }
}

impl Field for MultilineField {
    open spec fn writable(&self) -> bool {
        true
    }

    open spec fn text_for(&self, name: Seq<char>) -> Option<Seq<char>> {
        let ls = split_on(self.0@, '\n');
        Some(field_text(name, Some(ls[0]), Some(ls.drop_first())))
    }

    fn try_to_string(&self, field_name: &str) -> (r: Result<Option<String>, ControlFileError>) {
        let mut lines = lines_of_text(&self.0);
        proof {
            lemma_split_nonempty(self.0@, '\n');
        }
        let ghost all = lines@.map_values(|l: String| l@);
        let first = lines.remove(0);
        assert(lines@.map_values(|l: String| l@) =~= all.drop_first());
        match format_field(field_name, Some(first.as_str()), Some(&lines)) {
            Ok(t) => Ok(Some(t)),
            Err(e) => Err(e),
        }
    }
}

impl Field for MultilineEmptyFirstLineField {
    open spec fn writable(&self) -> bool {
        true
    }

    open spec fn text_for(&self, name: Seq<char>) -> Option<Seq<char>> {
        Some(field_text(name, None, Some(split_on(self.0@, '\n'))))
    }

    fn try_to_string(&self, field_name: &str) -> (r: Result<Option<String>, ControlFileError>) {
        let lines = lines_of_text(&self.0);
        match format_field(field_name, None, Some(&lines)) {
            Ok(t) => Ok(Some(t)),
            Err(e) => Err(e),
        }
    }
}

impl Field for SingleLineOrMultilineEmptyFirstLineField {
    open spec fn writable(&self) -> bool {
        true
    }

    open spec fn text_for(&self, name: Seq<char>) -> Option<Seq<char>> {
        if self.0@.contains('\n') {
            Some(field_text(name, None, Some(split_on(self.0@, '\n'))))
        } else {
            Some(first_line(name, Some(self.0@)))
        }
    }

    fn try_to_string(&self, field_name: &str) -> (r: Result<Option<String>, ControlFileError>) {
        let chars = chars_of(self.0.as_str());
        let result = if has_char(&chars, '\n') {
            let lines = lines_of_text(&self.0);
            format_field(field_name, None, Some(&lines))
        } else {
            format_field_first_line(field_name, Some(self.0.as_str()))
        };
        match result {
            Ok(t) => Ok(Some(t)),
            Err(e) => Err(e),
        }
    }
}

/// An optional field is still a field: a missing one is left out.
impl<F: Field> Field for Option<F> {
    open spec fn writable(&self) -> bool {
        match self {
            Some(f) => f.writable(),
            None => true,
        }
    }

    open spec fn text_for(&self, name: Seq<char>) -> Option<Seq<char>> {
        match self {
            Some(f) => f.text_for(name),
            None => None,
        }
    }

    fn try_to_string(&self, field_name: &str) -> (r: Result<Option<String>, ControlFileError>) {
        match self {
            Some(field) => field.try_to_string(field_name),
            None => Ok(None),
        }
    }
}

proof fn lemma_split_nonempty(s: Seq<char>, sep: char)
    ensures
        split_on(s, sep).len() >= 1,
    decreases s.len(),
{
    match crate::text::first_index_of(s, sep) {
        None => {},
        Some(k) => {
            if 0 <= k < s.len() {
                lemma_split_nonempty(s.skip(k + 1), sep);
            }
        },
    }
}

/// The lines of a paragraph, written one field at a time.
#[derive(Debug)]
pub struct ParagraphAccumulator {
    field_lines: Vec<String>,
}

impl View for ParagraphAccumulator {
    type V = Seq<Seq<char>>;

    closed spec fn view(&self) -> Seq<Seq<char>> {
        self.field_lines@.map_values(|l: String| l@)
    }
}

impl Default for ParagraphAccumulator {
    fn default() -> (r: ParagraphAccumulator)
        ensures
            r@ == Seq::<Seq<char>>::empty(),
    {
        let r = ParagraphAccumulator { field_lines: Vec::new() };
        assert(r@ =~= Seq::<Seq<char>>::empty());
        r
    }
}

/// The texts written so far, then the text of `text` if there is one.
pub open spec fn with_field(done: Seq<Seq<char>>, text: Option<Seq<char>>) -> Seq<Seq<char>> {
    match text {
        Some(t) => done.push(t),
        None => done,
    }
}

impl ParagraphAccumulator {
    /// Write a field, leaving it out where it has no text.
    pub fn write<F: Field>(self, field_name: &str, field: &F) -> (r: Result<
        ParagraphAccumulator,
        ControlFileError,
    >)
        ensures
            match r {
                Ok(acc) => field.writable() && acc@ == with_field(self@, field.text_for(field_name@)),
                Err(ControlFileError::UnexpectedNewline(n)) => !field.writable() && n@ == field_name@,
                Err(_) => false,
            },
    {
        let mut acc = self;
        match field.try_to_string(field_name) {
            Err(e) => Err(e),
            Ok(None) => Ok(acc),
            Ok(Some(s)) => {
                let ghost before = acc@;
                acc.field_lines.push(s);
                assert(acc@ =~= before.push(s@));
                Ok(acc)
            },
        }
    }

    /// The whole paragraph, with no trailing line break.
    pub fn to_string(&self) -> (r: String)
        ensures
            r@ == join_with(self@, seq!['\n']),
    {
        let mut texts: Vec<Vec<char>> = Vec::new();
        let mut i: usize = 0;
        while i < self.field_lines.len()
            invariant
                i <= self.field_lines@.len(),
                views_of_texts(texts@) == self@.take(i as int),
            decreases self.field_lines@.len() - i,
        {
            let t = chars_of(self.field_lines[i].as_str());
            let ghost before = texts@;
            texts.push(t);
            proof {
                assert(self@[i as int] == self.field_lines@[i as int]@);
                assert(self@.take(i + 1) =~= self@.take(i as int).push(self@[i as int]));
                assert(views_of_texts(texts@) =~= views_of_texts(before).push(t@));
            }
            i += 1;
        }
        assert(self@.take(self@.len() as int) =~= self@);
        let sep: Vec<char> = vec!['\n'];
        assert(sep@ =~= seq!['\n']);
        let joined = join_texts(&texts, &sep);
        string_of(joined.as_slice())
    }
}

/// A paragraph of a control file.
pub trait Paragraph {
    /// The texts of the fields that the paragraph writes, in order; nothing
    /// where one of them cannot be written.
    spec fn field_texts(&self) -> Option<Seq<Seq<char>>>;

    /// The paragraph as text, with no trailing line break.
    fn try_to_string(&self) -> (r: Result<Option<String>, ControlFileError>)
        ensures
            match r {
                Ok(Some(t)) => self.field_texts() matches Some(ls) && t@ == join_with(ls, seq!['\n']),
                Ok(None) => false,
                Err(_) => self.field_texts() is None,
            },
    ;
}

/// The texts of the paragraphs of `ps` that can be written, in order.
pub open spec fn written_paragraphs<P: Paragraph>(ps: Seq<P>) -> Seq<Seq<char>>
    decreases ps.len(),
{
    if ps.len() == 0 {
        seq![]
    } else {
        let prev = written_paragraphs(ps.drop_last());
        match ps.last().field_texts() {
            Some(ls) => prev.push(join_with(ls, seq!['\n'])),
            None => prev,
        }
    }
}

/// Paragraphs written one after the other.
pub trait Paragraphs {
    spec fn written(&self) -> Seq<Seq<char>>;

    /// The texts of the paragraphs that can be written, in order.
    fn flatten_to_strings(&self) -> (r: Vec<String>)
        ensures
            r@.map_values(|t: String| t@) == self.written(),
    ;
}

impl<P: Paragraph> Paragraphs for Vec<P> {
    open spec fn written(&self) -> Seq<Seq<char>> {
        written_paragraphs(self@)
    }

    fn flatten_to_strings(&self) -> (r: Vec<String>) {
        let mut out: Vec<String> = Vec::new();
        let mut i: usize = 0;
        assert(self@.take(0) =~= Seq::<P>::empty());
        assert(out@.map_values(|t: String| t@) =~= Seq::<Seq<char>>::empty());
        while i < self.len()
            invariant
                i <= self@.len(),
                out@.map_values(|t: String| t@) == written_paragraphs(self@.take(i as int)),
            decreases self@.len() - i,
        {
            proof {
                assert(self@.take(i + 1).drop_last() =~= self@.take(i as int));
                assert(self@.take(i + 1).last() == self@[i as int]);
            }
            let ghost before = out@;
            match self[i].try_to_string() {
                Ok(Some(t)) => {
                    out.push(t);
                    assert(out@.map_values(|t: String| t@) =~= before.map_values(|t: String| t@).push(t@));
                },
                _ => {},
            }
            i += 1;
        }
        assert(self@.take(self@.len() as int) =~= self@);
        out
    }
}

} // verus!
